use vstd::prelude::*;

verus! {

/// Characters with the Unicode `White_Space` property.
pub open spec fn is_white_space(c: char) -> bool {
    let u = c as u32;
    (0x9 <= u && u <= 0xd) || u == 0x20 || u == 0x85 || u == 0xa0 || u == 0x1680 || (0x2000 <= u
        && u <= 0x200a) || u == 0x2028 || u == 0x2029 || u == 0x202f || u == 0x205f || u == 0x3000
}

/// `s` without its leading white space.
pub open spec fn trim_start(s: Seq<char>) -> Seq<char>
    decreases s.len(),
{
    if s.len() > 0 && is_white_space(s[0]) {
        trim_start(s.drop_first())
    } else {
        s
    }
}

/// `s` without its trailing white space.
pub open spec fn trim_end(s: Seq<char>) -> Seq<char>
    decreases s.len(),
{
    if s.len() > 0 && is_white_space(s.last()) {
        trim_end(s.drop_last())
    } else {
        s
    }
}

/// `s` without leading and trailing white space.
pub open spec fn trimmed(s: Seq<char>) -> Seq<char> {
    trim_end(trim_start(s))
}

/// The first position at or after `i` where `sep` occurs in `s`, or -1.
pub open spec fn find_from(s: Seq<char>, sep: Seq<char>, i: int) -> int
    decreases s.len() + 1 - i,
{
    if i < 0 || i + sep.len() > s.len() {
        -1
    } else if s.subrange(i, i + sep.len()) == sep {
        i
    } else {
        find_from(s, sep, i + 1)
    }
}

/// The pieces of `s` between the occurrences of `sep`, taken from the left
/// without overlap; a text without `sep` is one piece.
pub open spec fn split_on(s: Seq<char>, sep: Seq<char>) -> Seq<Seq<char>>
    decreases s.len(),
{
    let k = find_from(s, sep, 0);
    if sep.len() == 0 || k < 0 || k + sep.len() > s.len() {
        seq![s]
    } else {
        seq![s.subrange(0, k)] + split_on(s.subrange(k + sep.len(), s.len() as int), sep)
    }
}

/// The texts that the index ranges `r` cut out of `s`.
pub open spec fn pieces_of(s: Seq<char>, r: Seq<(usize, usize)>) -> Seq<Seq<char>> {
    r.map_values(|p: (usize, usize)| s.subrange(p.0 as int, p.1 as int))
}

/// Whether `c` has the Unicode `White_Space` property.
pub fn is_white_space_char(c: char) -> (r: bool)
    ensures
        r == is_white_space(c),
{
    let u = c as u32;
    (0x9 <= u && u <= 0xd) || u == 0x20 || u == 0x85 || u == 0xa0 || u == 0x1680 || (0x2000 <= u
        && u <= 0x200a) || u == 0x2028 || u == 0x2029 || u == 0x202f || u == 0x205f || u == 0x3000
}

/// `s` without leading and trailing white space.
pub fn trim_str<'a>(s: &'a str) -> (r: &'a str)
    ensures
        r@ == trimmed(s@),
{
    let c = chars_of(s);
    let n = c.len();
    let mut a: usize = 0;
    assert(c@.subrange(0, n as int) =~= c@);
    while a < n && is_white_space_char(c[a])
        invariant
            a <= n == c@.len(),
            trim_start(c@) == trim_start(c@.subrange(a as int, n as int)),
        decreases n - a,
    {
        assert(c@.subrange(a as int, n as int).drop_first() =~= c@.subrange(a + 1, n as int));
        a += 1;
    }
    let ghost front = c@.subrange(a as int, n as int);
    assert(trim_start(c@) == front);
    let mut b: usize = n;
    while b > a && is_white_space_char(c[b - 1])
        invariant
            a <= b <= n == c@.len(),
            front == c@.subrange(a as int, n as int),
            trim_end(front) == trim_end(c@.subrange(a as int, b as int)),
        decreases b - a,
    {
        assert(c@.subrange(a as int, b as int).drop_last() =~= c@.subrange(a as int, b - 1));
        b -= 1;
    }
    assert(trim_end(c@.subrange(a as int, b as int)) == c@.subrange(a as int, b as int));
    s.substring_char(a, b)
}

/// Relies on String::push: appends one character.
#[verifier::external_body]
pub(crate) fn push_char(s: &mut String, c: char)
    ensures
        final(s)@ == old(s)@.push(c),
{
    s.push(c)
}

/// `s` without its last character, if it has one.
pub fn without_last(s: &String) -> (r: String)
    ensures
        s@.len() == 0 ==> r@ == s@,
        s@.len() > 0 ==> r@ == s@.drop_last(),
{
    let n = s.as_str().unicode_len();
    if n == 0 {
        s.clone()
    } else {
        let r = s.as_str().substring_char(0, n - 1).to_owned();
        assert(r@ =~= s@.drop_last());
        r
    }
}

/// The characters of `s`, one per element.
pub fn chars_of(s: &str) -> (r: Vec<char>)
    ensures
        r@ == s@,
{
    let n = s.unicode_len();
    let mut r: Vec<char> = Vec::new();
    let mut i: usize = 0;
    while i < n
        invariant
            n == s@.len(),
            i <= n,
            r@ == s@.subrange(0, i as int),
        decreases n - i,
    {
        r.push(s.get_char(i));
        i += 1;
    }
    assert(r@ =~= s@);
    r
}

/// Whether `sep` occurs in `s` at position `i`.
fn occurs_at(s: &Vec<char>, i: usize, sep: &Vec<char>) -> (r: bool)
    requires
        i + sep@.len() <= s@.len(),
    ensures
        r == (s@.subrange(i as int, i + sep@.len()) == sep@),
{
    let n = s.len();
    let mut j: usize = 0;
    while j < sep.len()
        invariant
            n == s@.len(),
            i + sep@.len() <= s@.len(),
            j <= sep@.len(),
            forall|k: int| 0 <= k < j ==> s@[i + k] == sep@[k],
        decreases sep@.len() - j,
    {
        if s[i + j] != sep[j] {
            assert(s@.subrange(i as int, i + sep@.len())[j as int] != sep@[j as int]);
            return false;
        }
        j += 1;
    }
    assert(s@.subrange(i as int, i + sep@.len()) =~= sep@);
    true
}

/// The index ranges of the pieces of `s[from..to]` between occurrences of
/// `sep`, as `split_on` gives them.
pub fn split_ranges(s: &Vec<char>, from: usize, to: usize, sep: &Vec<char>) -> (r: Vec<
    (usize, usize),
>)
    requires
        from <= to <= s@.len(),
        sep@.len() > 0,
    ensures
        pieces_of(s@, r@) == split_on(s@.subrange(from as int, to as int), sep@),
        forall|k: int| 0 <= k < r@.len() ==> from <= #[trigger] r@[k].0 <= r@[k].1 <= to,
{
    let mut r: Vec<(usize, usize)> = Vec::new();
    let mut start: usize = from;
    let mut i: usize = from;
    let ghost whole = s@.subrange(from as int, to as int);
    while i < to && sep.len() <= to - i
        invariant
            from <= start <= i <= to <= s@.len(),
            sep@.len() > 0,
            whole == s@.subrange(from as int, to as int),
            split_on(whole, sep@) == pieces_of(s@, r@) + split_on(
                s@.subrange(start as int, to as int),
                sep@,
            ),
            find_from(s@.subrange(start as int, to as int), sep@, 0) == find_from(
                s@.subrange(start as int, to as int),
                sep@,
                i - start,
            ),
            forall|k: int| 0 <= k < r@.len() ==> from <= #[trigger] r@[k].0 <= r@[k].1 <= to,
        decreases to - i,
    {
        let ghost rest = s@.subrange(start as int, to as int);
        assert(rest.subrange(i - start, i - start + sep@.len()) =~= s@.subrange(
            i as int,
            i + sep@.len(),
        ));
        if occurs_at(s, i, sep) {
            assert(find_from(rest, sep@, 0) == i - start);
            assert(rest.subrange(0, i - start) =~= s@.subrange(start as int, i as int));
            assert(rest.subrange(i - start + sep@.len(), rest.len() as int) =~= s@.subrange(
                i + sep@.len(),
                to as int,
            ));
            let ghost before = r@;
            r.push((start, i));
            assert(pieces_of(s@, r@) =~= pieces_of(s@, before) + seq![
                s@.subrange(start as int, i as int),
            ]);
            start = i + sep.len();
            i = start;
        } else {
            i += 1;
        }
    }
    proof {
        let rest = s@.subrange(start as int, to as int);
        assert(find_from(rest, sep@, i - start) == -1);
    }
    let ghost before = r@;
    r.push((start, to));
    assert(pieces_of(s@, r@) =~= pieces_of(s@, before) + seq![
        s@.subrange(start as int, to as int),
    ]);
    r
}

} // verus!
