use vstd::prelude::*;

verus! {

/// Whether two strings hold the same characters.
pub fn str_equal(a: &str, b: &str) -> (r: bool)
    ensures
        r == (a@ == b@),
{
    let n = a.unicode_len();
    let m = b.unicode_len();
    if n != m {
        return false;
    }
    let mut i: usize = 0;
    while i < n
        invariant
            n == a@.len(),
            m == b@.len(),
            n == m,
            i <= n,
            forall|j: int| 0 <= j < i ==> a@[j] == b@[j],
        decreases n - i,
    {
        if a.get_char(i) != b.get_char(i) {
            return false;
        }
        i = i + 1;
    }
    assert(a@ =~= b@);
    true
}

/// The result of `str::to_uppercase` on a text.
pub uninterp spec fn upper_of(s: Seq<char>) -> Seq<char>;

/// Relies on `str::to_uppercase`: the result depends on the characters alone.
#[verifier::external_body]
pub(crate) fn to_upper(s: &str) -> (r: String)
    ensures
        r@ == upper_of(s@),
{
    s.to_uppercase()
}

/// `s` with every leading `marker` removed.
pub open spec fn trim_leading(s: Seq<char>, marker: char) -> Seq<char>
    decreases s.len(),
{
    if s.len() > 0 && s[0] == marker {
        trim_leading(s.drop_first(), marker)
    } else {
        s
    }
}

/// Removes every leading `marker` from `s`.
pub fn trim_start(s: &str, marker: char) -> (r: String)
    ensures
        r@ == trim_leading(s@, marker),
{
    let n = s.unicode_len();
    let mut i: usize = 0;
    assert(s@.subrange(0, n as int) =~= s@);
    while i < n && s.get_char(i) == marker
        invariant
            n == s@.len(),
            i <= n,
            trim_leading(s@, marker) == trim_leading(s@.subrange(i as int, n as int), marker),
        decreases n - i,
    {
        assert(s@.subrange(i + 1, n as int) =~= s@.subrange(i as int, n as int).drop_first());
        i = i + 1;
    }
    String::from_str(s.substring_char(i, n))
}

} // verus!
