use vstd::prelude::*;
use vstd::string::*;

verus! {

/// The characters that Unicode gives the `White_Space` property.
pub open spec fn is_white_space(c: char) -> bool {
    let u = c as u32;
    (0x9 <= u <= 0xd) || u == 0x20 || u == 0x85 || u == 0xa0 || u == 0x1680 || (0x2000 <= u
        <= 0x200a) || u == 0x2028 || u == 0x2029 || u == 0x202f || u == 0x205f || u == 0x3000
}

/// `s` without its trailing white space.
pub open spec fn trim_end(s: Seq<char>) -> Seq<char>
    decreases s.len(),
{
    if s.len() > 0 && is_white_space(s.last()) {
        trim_end(s.drop_last())
    } else {
        s
    }
}

/// `s` without its leading white space.
pub open spec fn trim_start(s: Seq<char>) -> Seq<char>
    decreases s.len(),
{
    if s.len() > 0 && is_white_space(s[0]) {
        trim_start(s.drop_first())
    } else {
        s
    }
}

/// `s` without white space at either end.
pub open spec fn trim(s: Seq<char>) -> Seq<char> {
    trim_start(trim_end(s))
}

/// The separator between the fields of a link line.
pub open spec fn arrow() -> Seq<char> {
    seq![' ', '-', '>', ' ']
}

/// The pieces of `s` between non-overlapping separators, searched from the
/// left; `start` is where the current piece began and `k` where the search
/// goes on.
pub open spec fn split_from(s: Seq<char>, start: int, k: int) -> Seq<Seq<char>>
    decreases s.len() - k,
{
    if k < 0 || k + 4 > s.len() {
        seq![s.subrange(start, s.len() as int)]
    } else if s.subrange(k, k + 4) == arrow() {
        seq![s.subrange(start, k)] + split_from(s, k + 4, k + 4)
    } else {
        split_from(s, start, k + 1)
    }
}

/// The fields of `s` between separators.
pub open spec fn split_arrows(s: Seq<char>) -> Seq<Seq<char>> {
    split_from(s, 0, 0)
}

/// The contents of a sequence of strings.
pub open spec fn texts(v: Seq<String>) -> Seq<Seq<char>> {
    v.map_values(|x: String| x@)
}

/// Whether `c` is white space.
pub fn white_space(c: char) -> (r: bool)
    ensures
        r == is_white_space(c),
{
    let u = c as u32;
    (0x9 <= u && u <= 0xd) || u == 0x20 || u == 0x85 || u == 0xa0 || u == 0x1680 || (0x2000 <= u
        && u <= 0x200a) || u == 0x2028 || u == 0x2029 || u == 0x202f || u == 0x205f || u == 0x3000
}

/// Whether `a` and `b` hold the same characters.
pub fn same_text(a: &str, b: &str) -> (r: bool)
    ensures
        r == (a@ == b@),
{
    a.to_owned() == b.to_owned()
}

/// `s` without its trailing white space.
pub fn trim_end_of(s: &str) -> (r: &str)
    ensures
        r@ == trim_end(s@),
{
    let mut j = s.unicode_len();
    let mut done = false;
    assert(s@.subrange(0, j as int) =~= s@);
    while j > 0 && !done
        invariant
            j <= s@.len(),
            trim_end(s@.subrange(0, j as int)) == trim_end(s@),
            done ==> j > 0 && !is_white_space(s@[j - 1]),
        decreases j, if done { 0int } else { 1int },
    {
        if white_space(s.get_char(j - 1)) {
            assert(s@.subrange(0, j as int).drop_last() =~= s@.subrange(0, j - 1));
            j = j - 1;
        } else {
            done = true;
        }
    }
    s.substring_char(0, j)
}

/// `s` without its leading white space.
pub fn trim_start_of(s: &str) -> (r: &str)
    ensures
        r@ == trim_start(s@),
{
    let n = s.unicode_len();
    let mut i: usize = 0;
    assert(s@.subrange(0, n as int) =~= s@);
    let mut done = false;
    while i < n && !done
        invariant
            i <= n,
            n == s@.len(),
            trim_start(s@.subrange(i as int, n as int)) == trim_start(s@),
            done ==> i < n && !is_white_space(s@[i as int]),
        decreases n - i, if done { 0int } else { 1int },
    {
        if white_space(s.get_char(i)) {
            assert(s@.subrange(i as int, n as int).drop_first() =~= s@.subrange(i + 1, n as int));
            i = i + 1;
        } else {
            done = true;
        }
    }
    s.substring_char(i, n)
}

/// `s` without white space at either end.
pub fn trim_of(s: &str) -> (r: &str)
    ensures
        r@ == trim(s@),
{
    trim_start_of(trim_end_of(s))
}

/// The fields of `s` between the separators ` -> `.
pub fn split_arrows_of(s: &str) -> (r: Vec<String>)
    ensures
        texts(r@) == split_arrows(s@),
{
    let n = s.unicode_len();
    let mut out: Vec<String> = Vec::new();
    let mut start: usize = 0;
    let mut k: usize = 0;
    while k < n && n - k >= 4
        invariant
            n == s@.len(),
            start <= k <= n,
            texts(out@) + split_from(s@, start as int, k as int) == split_arrows(s@),
        decreases n - k,
    {
        let ghost before = texts(out@);
        if s.get_char(k) == ' ' && s.get_char(k + 1) == '-' && s.get_char(k + 2) == '>'
            && s.get_char(k + 3) == ' ' {
            assert(s@.subrange(k as int, k + 4) =~= arrow());
            let piece = s.substring_char(start, k).to_owned();
            out.push(piece);
            assert(before + split_from(s@, start as int, k as int) =~= texts(out@) + split_from(
                s@,
                k + 4,
                k + 4,
            ));
            k = k + 4;
            start = k;
        } else {
            assert(s@.subrange(k as int, k + 4) != arrow());
            k = k + 1;
        }
    }
    let last = s.substring_char(start, n).to_owned();
    out.push(last);
    out
}

} // verus!
