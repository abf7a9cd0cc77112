use vstd::prelude::*;

use crate::error::RenderError;

verus! {

/// Membership of a character in the Unicode word class (`\w`).
pub uninterp spec fn word_char(c: char) -> bool;

/// Relies on `regex_syntax::is_word_character`, which decides the Unicode `\w`
/// class (Alphabetic, Join_Control, Decimal_Number, Mark, Connector_Punctuation).
#[verifier::external_body]
fn is_word_char(c: char) -> (r: bool)
    ensures
        r == word_char(c),
{
    regex_syntax::is_word_character(c)
}

/// The namespace given to an id written without one.
pub const DEFAULT_NAMESPACE: &'static str = "minecraft";

pub open spec fn default_namespace() -> Seq<char> {
    seq!['m', 'i', 'n', 'e', 'c', 'r', 'a', 'f', 't']
}

/// A character allowed in a namespace: a word character (a colon never is one).
pub open spec fn namespace_char(c: char) -> bool {
    c != ':' && word_char(c)
}

/// A character allowed in the path part of an id: a word character, `/` or `-`.
pub open spec fn path_char(c: char) -> bool {
    namespace_char(c) || c == '/' || c == '-'
}

pub open spec fn all_word(s: Seq<char>) -> bool {
    forall|i: int| 0 <= i < s.len() ==> namespace_char(#[trigger] s[i])
}

pub open spec fn all_path(s: Seq<char>) -> bool {
    forall|i: int| 0 <= i < s.len() ==> path_char(#[trigger] s[i])
}

/// `s` reads `namespace:path` with its colon at index `k`.
pub open spec fn namespaced_at(s: Seq<char>, k: int) -> bool {
    &&& 0 <= k < s.len()
    &&& s[k] == ':'
    &&& all_word(s.subrange(0, k))
    &&& all_path(s.subrange(k + 1, s.len() as int))
}

/// The canonical text of an id.
pub open spec fn id_text(namespace: Seq<char>, path: Seq<char>) -> Seq<char> {
    namespace + seq![':'] + path
}

/// What an id string denotes: `namespace:path`, or a bare path in the default
/// namespace, or nothing.
pub open spec fn parse_id(s: Seq<char>) -> Option<(Seq<char>, Seq<char>)> {
    if exists|k: int| namespaced_at(s, k) {
        let k = choose|k: int| namespaced_at(s, k);
        Some((s.subrange(0, k), s.subrange(k + 1, s.len() as int)))
    } else if all_path(s) {
        Some((default_namespace(), s))
    } else {
        None
    }
}

/// Canonical `namespace:path` identifier of an asset.
#[derive(Debug, Clone, PartialEq, Eq)]
pub struct ResourceId {
    namespace: String,
    path: String,
}

impl View for ResourceId {
    type V = (Seq<char>, Seq<char>);

    closed spec fn view(&self) -> (Seq<char>, Seq<char>) {
        (self.namespace@, self.path@)
    }
}

impl ResourceId {
    pub fn new(namespace: &str, path: &str) -> (r: ResourceId)
        ensures
            r@ == (namespace@, path@),
    {
        ResourceId::new_string(String::from_str(namespace), String::from_str(path))
    }

    pub fn new_string(namespace: String, path: String) -> (r: ResourceId)
        ensures
            r@ == (namespace@, path@),
    {
        ResourceId { namespace, path }
    }

    /// Parses `namespace:path`, or a bare path that gets the default namespace.
    pub fn of(id: &str) -> (r: Result<ResourceId, RenderError>)
        ensures
            match parse_id(id@) {
                Some(p) => r is Ok && r->Ok_0@ == p,
                None => r == Err::<ResourceId, RenderError>(RenderError::InvalidResourceId),
            },
    {
        let n = id.unicode_len();
        let mut k: usize = 0;
        while k < n && id.get_char(k) != ':'
            invariant
                n == id@.len(),
                k <= n,
                forall|j: int| 0 <= j < k ==> id@[j] != ':',
            decreases n - k,
        {
            k = k + 1;
        }
        if k < n {
            let mut ok = true;
            let mut i: usize = 0;
            while i < k
                invariant
                    n == id@.len(),
                    k < n,
                    i <= k,
                    ok == (forall|j: int| 0 <= j < i ==> namespace_char(id@[j])),
                decreases k - i,
            {
                let c = id.get_char(i);
                let w = c != ':' && is_word_char(c);
                ok = ok && w;
                i = i + 1;
            }
            let mut i: usize = k + 1;
            while i < n
                invariant
                    n == id@.len(),
                    k < n,
                    k + 1 <= i <= n,
                    ok == ((forall|j: int| 0 <= j < k ==> namespace_char(id@[j])) && (forall|j: int|
                        k < j < i ==> path_char(id@[j]))),
                decreases n - i,
            {
                let c = id.get_char(i);
                let p = c == '/' || c == '-' || (c != ':' && is_word_char(c));
                ok = ok && p;
                i = i + 1;
            }
            proof {
                let s = id@;
                assert(s.subrange(0, k as int).len() == k);
                assert(s[k as int] == ':');
                assert(!path_char(s[k as int]));
                if ok {
                    assert(all_word(s.subrange(0, k as int)));
                    assert(all_path(s.subrange(k + 1, s.len() as int)));
                    assert(namespaced_at(s, k as int));
                    lemma_colon_unique(s, k as int);
                } else {
                    if exists|k2: int| namespaced_at(s, k2) {
                        let k2 = choose|k2: int| namespaced_at(s, k2);
                        if k2 > k {
                            assert(s.subrange(0, k2)[k as int] == s[k as int]);
                        }
                        assert(k2 == k);
                        assert forall|j: int| 0 <= j < k implies namespace_char(s[j]) by {
                            assert(s.subrange(0, k2)[j] == s[j]);
                        }
                        assert forall|j: int| k < j < n implies path_char(s[j]) by {
                            assert(s.subrange(k2 + 1, s.len() as int)[j - k - 1] == s[j]);
                        }
                    }
                    assert(!all_path(s));
                }
            }
            if ok {
                let namespace = id.substring_char(0, k);
                let path = id.substring_char(k + 1, n);
                Ok(ResourceId::new(namespace, path))
            } else {
                Err(RenderError::InvalidResourceId)
            }
        } else {
            let mut ok = true;
            let mut i: usize = 0;
            while i < n
                invariant
                    n == id@.len(),
                    i <= n,
                    ok == (forall|j: int| 0 <= j < i ==> path_char(id@[j])),
                decreases n - i,
            {
                let c = id.get_char(i);
                let p = c == '/' || c == '-' || (c != ':' && is_word_char(c));
                ok = ok && p;
                i = i + 1;
            }
            proof {
                assert(!exists|k2: int| namespaced_at(id@, k2));
            }
            if ok {
                proof {
                    reveal_strlit("minecraft");
                    assert(DEFAULT_NAMESPACE@ =~= default_namespace());
                }
                Ok(ResourceId::new(DEFAULT_NAMESPACE, id))
            } else {
                Err(RenderError::InvalidResourceId)
            }
        }
    }

    pub fn namespace(&self) -> (r: &str)
        ensures
            r@ == self@.0,
    {
        self.namespace.as_str()
    }

    pub fn path(&self) -> (r: &str)
        ensures
            r@ == self@.1,
    {
        self.path.as_str()
    }

    /// Whether two ids name the same asset.
    pub fn same(&self, other: &ResourceId) -> (r: bool)
        ensures
            r == (self@ == other@),
    {
        crate::text::str_equal(self.namespace.as_str(), other.namespace.as_str())
            && crate::text::str_equal(self.path.as_str(), other.path.as_str())
    }

    /// A copy of this id.
    pub fn duplicate(&self) -> (r: ResourceId)
        ensures
            r@ == self@,
    {
        ResourceId { namespace: self.namespace.clone(), path: self.path.clone() }
    }

    /// The canonical `namespace:path` text.
    pub fn to_string(&self) -> (r: String)
        ensures
            r@ == id_text(self@.0, self@.1),
    {
        proof {
            reveal_strlit(":");
        }
        self.namespace.clone().concat(":").concat(self.path.as_str())
    }
}

/// Printing an id whose parts are well formed and parsing the text back gives
/// the same id.
pub proof fn lemma_parse_round_trip(namespace: Seq<char>, path: Seq<char>)
    requires
        all_word(namespace),
        all_path(path),
    ensures
        parse_id(id_text(namespace, path)) == Some((namespace, path)),
{
    let s = id_text(namespace, path);
    let k = namespace.len() as int;
    assert(s.subrange(0, k) =~= namespace);
    assert(s.subrange(k + 1, s.len() as int) =~= path);
    assert(namespaced_at(s, k));
    lemma_colon_unique(s, k);
}

/// A bare path (no colon) parses into the default namespace, unchanged.
pub proof fn lemma_bare_path_default_namespace(path: Seq<char>)
    requires
        all_path(path),
    ensures
        parse_id(path) == Some((default_namespace(), path)),
{
    assert forall|k: int| !namespaced_at(path, k) by {
        if 0 <= k < path.len() {
            assert(path_char(path[k]));
        }
    }
}

/// A colon in `namespace:path` form can only stand right after the namespace.
proof fn lemma_colon_unique(s: Seq<char>, k: int)
    requires
        namespaced_at(s, k),
    ensures
        forall|k2: int| #[trigger] namespaced_at(s, k2) ==> k2 == k,
{
    assert forall|k2: int| #[trigger] namespaced_at(s, k2) implies k2 == k by {
        if k2 < k {
            assert(s.subrange(0, k)[k2] == s[k2]);
        } else if k2 > k {
            assert(s.subrange(0, k2)[k] == s[k]);
        }
    }
}

} // verus!
