use vstd::prelude::*;
use vstd::string::*;

verus! {

/// `suffix` is a suffix of `name`, character by character.
pub open spec fn is_suffix(suffix: Seq<char>, name: Seq<char>) -> bool {
    suffix.len() <= name.len() && name.subrange(name.len() - suffix.len(), name.len() as int)
        == suffix
}

/// Some member of `exclusions` is a suffix of `name`.
pub open spec fn excluded(name: Seq<char>, exclusions: Seq<Seq<char>>) -> bool {
    exists|i: int| 0 <= i < exclusions.len() && is_suffix(#[trigger] exclusions[i], name)
}

/// The exclusion suffixes of a configuration, as character sequences.
pub open spec fn views_of(v: Seq<String>) -> Seq<Seq<char>> {
    v.map_values(|s: String| s@)
}

/// One child found by listing a directory. `node` is the caller's handle for
/// the child's path; `name` is its base name, absent when it is not valid UTF-8.
#[derive(Debug)]
pub struct Entry {
    pub node: usize,
    pub name: Option<String>,
    pub is_dir: bool,
}

/// A listed child is walked into when it is a directory whose name no exclusion
/// suffix ends. A name that is not valid UTF-8 matches no exclusion.
pub open spec fn enters(e: Entry, exclusions: Seq<Seq<char>>) -> bool {
    e.is_dir && match e.name {
        Some(n) => !excluded(n@, exclusions),
        None => true,
    }
}

/// Whether `name` ends with `suffix`.
pub fn ends_with(name: &str, suffix: &str) -> (r: bool)
    ensures
        r == is_suffix(suffix@, name@),
{
    let n = name.unicode_len();
    let s = suffix.unicode_len();
    if s > n {
        return false;
    }
    let start = n - s;
    let mut i: usize = 0;
    while i < s
        invariant
            n == name@.len(),
            s == suffix@.len(),
            start == n - s,
            i <= s,
            forall|j: int| 0 <= j < i ==> name@[start + j] == suffix@[j],
        decreases s - i,
    {
        if name.get_char(start + i) != suffix.get_char(i) {
            proof {
                assert(name@.subrange(start as int, n as int)[i as int] != suffix@[i as int]);
            }
            return false;
        }
        i += 1;
    }
    proof {
        assert(name@.subrange(start as int, n as int) =~= suffix@);
    }
    true
}

/// Whether some exclusion suffix ends `name`.
pub fn is_excluded(name: &str, exclusions: &Vec<String>) -> (r: bool)
    ensures
        r == excluded(name@, views_of(exclusions@)),
{
    let mut i: usize = 0;
    while i < exclusions.len()
        invariant
            i <= exclusions@.len(),
            forall|j: int| 0 <= j < i ==> !is_suffix(#[trigger] exclusions@[j]@, name@),
        decreases exclusions@.len() - i,
    {
        if ends_with(name, exclusions[i].as_str()) {
            proof {
                assert(views_of(exclusions@)[i as int] == exclusions@[i as int]@);
            }
            return true;
        }
        i += 1;
    }
    proof {
        assert forall|j: int| 0 <= j < views_of(exclusions@).len() implies !is_suffix(
            #[trigger] views_of(exclusions@)[j],
            name@,
        ) by {
            assert(views_of(exclusions@)[j] == exclusions@[j]@);
        }
    }
    false
}

/// Whether the walk goes into the listed child `e`.
pub fn enters_child(e: &Entry, exclusions: &Vec<String>) -> (r: bool)
    ensures
        r == enters(*e, views_of(exclusions@)),
{
    if !e.is_dir {
        return false;
    }
    match &e.name {
        Some(n) => !is_excluded(n.as_str(), exclusions),
        None => true,
    }
}

/// Exclusion decides entry: a directory named `n` is skipped exactly when some
/// exclusion is a suffix of `n`.
pub proof fn lemma_exclusion(n: String, node: usize, exclusions: Seq<Seq<char>>)
    ensures
        !enters(Entry { node, name: Some(n), is_dir: true }, exclusions) <==> exists|i: int|
            0 <= i < exclusions.len() && is_suffix(#[trigger] exclusions[i], n@),
{
}

} // verus!
