use vstd::prelude::*;
use crate::store::strings_view;

verus! {

/// The characters that Unicode calls white space.
pub open spec fn is_space(c: char) -> bool {
    let u = c as u32;
    ||| 0x09 <= u <= 0x0D
    ||| u == 0x20
    ||| u == 0x85
    ||| u == 0xA0
    ||| u == 0x1680
    ||| 0x2000 <= u <= 0x200A
    ||| u == 0x2028
    ||| u == 0x2029
    ||| u == 0x202F
    ||| u == 0x205F
    ||| u == 0x3000
}

/// `r` is `s` without its leading and trailing white space.
pub open spec fn is_trim_of(r: Seq<char>, s: Seq<char>) -> bool {
    exists|a: int, b: int|
        {
            &&& 0 <= a <= b <= s.len()
            &&& r == s.subrange(a, b)
            &&& forall|j: int| 0 <= j < a ==> is_space(#[trigger] s[j])
            &&& forall|j: int| b <= j < s.len() ==> is_space(#[trigger] s[j])
            &&& a < b ==> !is_space(s[a]) && !is_space(s[b - 1])
        }
}

/// The maximal runs of characters that are not white space, in order.
pub open spec fn words(s: Seq<char>) -> Seq<Seq<char>>
    decreases s.len(),
{
    if s.len() == 0 {
        Seq::empty()
    } else {
        let p = words(s.drop_last());
        if is_space(s.last()) {
            p
        } else if s.len() >= 2 && !is_space(s[s.len() - 2]) {
            p.update(p.len() - 1, p.last().push(s.last()))
        } else {
            p.push(seq![s.last()])
        }
    }
}

/// Whether `c` is white space.
pub fn is_space_char(c: char) -> (r: bool)
    ensures
        r == is_space(c),
{
    let u = c as u32;
    (0x09 <= u && u <= 0x0D) || u == 0x20 || u == 0x85 || u == 0xA0 || u == 0x1680 || (0x2000
        <= u && u <= 0x200A) || u == 0x2028 || u == 0x2029 || u == 0x202F || u == 0x205F || u
        == 0x3000
}

/// An answer read from the terminal without the white space around it
/// (the line break included).
pub fn trim_input(s: &str) -> (r: String)
    ensures
        is_trim_of(r@, s@),
{
    let n = s.unicode_len();
    let mut a: usize = 0;
    while a < n && is_space_char(s.get_char(a))
        invariant
            a <= n,
            n == s@.len(),
            forall|j: int| 0 <= j < a ==> is_space(#[trigger] s@[j]),
        decreases n - a,
    {
        a = a + 1;
    }
    let mut b: usize = n;
    while b > a && is_space_char(s.get_char(b - 1))
        invariant
            a <= b <= n,
            n == s@.len(),
            forall|j: int| b <= j < n ==> is_space(#[trigger] s@[j]),
        decreases b - a,
    {
        b = b - 1;
    }
    let r = String::from_str(s.substring_char(a, b));
    assert(is_trim_of(r@, s@)) by {
        if a < b {
            assert(!is_space(s@[a as int]));
            assert(!is_space(s@[b - 1]));
        }
    }
    r
}

/// The white-space separated words of `s`, such as the container IDs that
/// the orchestration tool lists one per line.
pub fn split_words(s: &str) -> (r: Vec<String>)
    ensures
        strings_view(r@) == words(s@),
{
    let n = s.unicode_len();
    let mut r: Vec<String> = Vec::new();
    let mut i: usize = 0;
    let mut start: usize = 0;
    let mut in_word = false;
    while i < n
        invariant
            i <= n,
            n == s@.len(),
            in_word ==> start < i,
            in_word <==> (i > 0 && !is_space(s@[i - 1])),
            words(s@.take(i as int)) == strings_view(r@) + if in_word {
                seq![s@.subrange(start as int, i as int)]
            } else {
                Seq::empty()
            },
        decreases n - i,
    {
        let ghost t = s@.take(i as int + 1);
        assert(t.drop_last() =~= s@.take(i as int));
        let c = s.get_char(i);
        let ghost r0 = strings_view(r@);
        if is_space_char(c) {
            if in_word {
                let w = String::from_str(s.substring_char(start, i));
                r.push(w);
                assert(strings_view(r@) =~= r0.push(w@));
                in_word = false;
            }
            assert(words(t) =~= strings_view(r@));
        } else {
            if in_word {
                let ghost p = r0 + seq![s@.subrange(start as int, i as int)];
                assert(words(t) == p.update(p.len() - 1, p.last().push(c)));
                assert(s@.subrange(start as int, i as int).push(c) =~= s@.subrange(start as int, i + 1));
                assert(words(t) =~= r0 + seq![s@.subrange(start as int, i + 1)]);
            } else {
                start = i;
                in_word = true;
                assert(seq![c] =~= s@.subrange(start as int, i + 1));
                assert(words(t) =~= r0 + seq![s@.subrange(start as int, i + 1)]);
            }
        }
        i = i + 1;
    }
    let ghost r0 = strings_view(r@);
    if in_word {
        let w = String::from_str(s.substring_char(start, n));
        r.push(w);
        assert(strings_view(r@) =~= r0.push(w@));
    }
    assert(s@.take(n as int) =~= s@);
    assert(strings_view(r@) =~= words(s@));
    r
}

} // verus!
