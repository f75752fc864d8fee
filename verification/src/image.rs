//! The mounted package image, modelled as plain data: a mountpoint and the
//! per-package configuration the sandbox builder reads.

use vstd::prelude::*;

verus! {

/// Configuration of one language a package provides.  Its contents are an
/// external collaborator's business; the invoker core only hands it on.
pub struct LanguageConfig {}

/// Configuration of one package of the image.
pub struct PackageConfig {
    /// The languages the package provides, by name.
    pub languages: Vec<(String, LanguageConfig)>,
}

/// The configuration of a mounted image.
pub struct ImageConfig {
    /// The packages the image contains, by name.
    pub packages: Vec<(String, PackageConfig)>,
}

/// A mounted image: where it is mounted and what it contains.
pub struct MountedImage {
    pub mountpoint: String,
    pub config: ImageConfig,
}

/// First index whose key matches, or -1.
pub open spec fn assoc_idx<V>(s: Seq<(String, V)>, key: Seq<char>) -> int
    decreases s.len(),
{
    if s.len() == 0 {
        -1
    } else if s[0].0@ == key {
        0
    } else {
        let r = assoc_idx(s.skip(1), key);
        if r < 0 {
            -1
        } else {
            r + 1
        }
    }
}

pub proof fn lemma_assoc_idx<V>(s: Seq<(String, V)>, key: Seq<char>)
    ensures
        assoc_idx(s, key) >= 0 ==> assoc_idx(s, key) < s.len() && s[assoc_idx(s, key)].0@ == key,
        assoc_idx(s, key) < 0 ==> forall|j: int| 0 <= j < s.len() ==> (#[trigger] s[j].0)@ != key,
    decreases s.len(),
{
    if s.len() > 0 && s[0].0@ != key {
        let t = s.skip(1);
        lemma_assoc_idx(t, key);
        assert(forall|j: int| 0 <= j < t.len() ==> #[trigger] t[j] == s[j + 1]);
        if assoc_idx(t, key) < 0 {
            assert forall|j: int| 0 <= j < s.len() implies (#[trigger] s[j].0)@ != key by {
                if j > 0 {
                    assert(t[j - 1] == s[j]);
                }
            }
        }
    }
}

/// Look a key up in an association list; the first match wins.
pub fn assoc_get<'x, V>(list: &'x Vec<(String, V)>, key: &str) -> (r: Option<&'x V>)
    ensures
        r is Some <==> assoc_idx(list@, key@) >= 0,
        r matches Some(v) ==> *v == list@[assoc_idx(list@, key@)].1,
{
    let mut i: usize = 0;
    while i < list.len()
        invariant
            i <= list@.len(),
            forall|j: int| 0 <= j < i ==> (#[trigger] list@[j].0)@ != key@,
        decreases list@.len() - i,
    {
        if crate::strutil::str_eq_str(list[i].0.as_str(), key) {
            proof {
                lemma_assoc_idx(list@, key@);
                lemma_assoc_first(list@, key@);
                let r = assoc_idx(list@, key@);
                if r < 0 {
                    assert(list@[i as int].0@ != key@);
                    assert(false);
                }
                if r < i {
                    assert(list@[r].0@ != key@);
                    assert(false);
                }
                if r > i {
                    assert(list@[i as int].0@ != key@);
                    assert(false);
                }
            }
            return Some(&list[i].1);
        }
        i = i + 1;
    }
    proof {
        lemma_assoc_idx(list@, key@);
        let r = assoc_idx(list@, key@);
        if r >= 0 {
            assert(list@[r].0@ == key@);
            assert(false);
        }
    }
    None
}

/// All keys before the first match differ from the key.
pub proof fn lemma_assoc_first<V>(s: Seq<(String, V)>, key: Seq<char>)
    ensures
        forall|j: int|
            0 <= j < assoc_idx(s, key) ==> (#[trigger] s[j].0)@ != key,
    decreases s.len(),
{
    if s.len() > 0 && s[0].0@ != key {
        let t = s.skip(1);
        lemma_assoc_first(t, key);
        lemma_assoc_idx(t, key);
        assert(forall|j: int| 0 <= j < t.len() ==> #[trigger] t[j] == s[j + 1]);
        assert forall|j: int| 0 <= j < assoc_idx(s, key) implies (#[trigger] s[j].0)@ != key by {
            if j > 0 {
                let r = assoc_idx(t, key);
                assert(r >= 0 && assoc_idx(s, key) == r + 1);
                assert(0 <= j - 1 < r);
                assert((t[j - 1].0)@ != key);
                assert(t[j - 1] == s[j]);
            }
        }
    }
}

impl MountedImage {
    /// Whether the image contains a package of this name.
    pub fn has_package(&self, name: &str) -> (r: bool)
        ensures
            r <==> assoc_idx(self.config.packages@, name@) >= 0,
    {
        match assoc_get(&self.config.packages, name) {
            Some(_) => true,
            None => false,
        }
    }
}

} // verus!
