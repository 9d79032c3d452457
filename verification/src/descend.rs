//! Following a path into a document.

use crate::json::{entries_view, open_value, tree_of, Shape, Tree};
use crate::segment::{path_view, Segment, Step};
use serde_json::Value;
use vstd::prelude::*;

verus! {

/// The value stored under a key among an object's entries: that of the
/// first entry with this key, or `None` where no entry has it.
pub open spec fn lookup(entries: Seq<(Seq<char>, Tree)>, key: Seq<char>) -> Option<Tree>
    decreases entries.len(),
{
    if entries.len() == 0 {
        None
    } else if entries[0].0 == key {
        Some(entries[0].1)
    } else {
        lookup(entries.skip(1), key)
    }
}

/// One step into a document. An array is entered by an index inside its
/// bounds, never by a key. An object is entered by the step's text, whether
/// or not the text is numeric. Nothing else can be entered.
pub open spec fn step(t: Tree, s: Step) -> Option<Tree> {
    match t {
        Tree::Array(items) => match s {
            Step::Index(_, i) => if i < items.len() {
                Some(items[i as int])
            } else {
                None
            },
            Step::Key(_) => None,
        },
        Tree::Object(entries) => lookup(entries, s.text()),
        _ => None,
    }
}

/// Where a path leads inside a document: the document itself for the empty
/// path, otherwise the rest of the path followed from where the first step
/// leads, and `None` as soon as a step leads nowhere.
pub open spec fn descend(t: Tree, path: Seq<Step>) -> Option<Tree>
    decreases path.len(),
{
    if path.len() == 0 {
        Some(t)
    } else {
        match step(t, path[0]) {
            Some(child) => descend(child, path.skip(1)),
            None => None,
        }
    }
}

/// Where entries before position `k` do not have the key, the lookup is
/// decided by the entries from `k` on.
pub proof fn lemma_lookup_skip(entries: Seq<(Seq<char>, Tree)>, key: Seq<char>, k: int)
    requires
        0 <= k <= entries.len(),
        forall|j: int| 0 <= j < k ==> (#[trigger] entries[j]).0 != key,
    ensures
        lookup(entries, key) == lookup(entries.skip(k), key),
    decreases k,
{
    if k == 0 {
        assert(entries.skip(0) =~= entries);
    } else {
        assert(entries[0].0 != key);
        let rest = entries.skip(1);
        assert forall|j: int| 0 <= j < k - 1 implies (#[trigger] rest[j]).0 != key by {
            assert(rest[j] == entries[j + 1]);
        }
        lemma_lookup_skip(rest, key, k - 1);
        assert(rest.skip(k - 1) =~= entries.skip(k));
    }
}

/// Takes the value stored under a key out of an object's entries.
pub fn take_entry(entries: Vec<(String, Value)>, key: &String) -> (r: Option<Value>)
    ensures
        match r {
            Some(v) => lookup(entries_view(entries@), key@) == Some(tree_of(v)),
            None => lookup(entries_view(entries@), key@) is None,
        },
{
    let mut rest = entries;
    let ghost all = entries_view(rest@);
    let n: usize = rest.len();
    let mut i: usize = 0;
    while i < n
        invariant
            n == rest@.len(),
            0 <= i <= n,
            rest@ == entries@,
            all == entries_view(rest@),
            forall|j: int| 0 <= j < i ==> (#[trigger] all[j]).0 != key@,
        decreases n - i,
    {
        if rest[i].0 == *key {
            proof {
                lemma_lookup_skip(all, key@, i as int);
                assert(all.skip(i as int)[0] == all[i as int]);
                assert(all[i as int].0 == key@);
                assert(all[i as int].1 == tree_of(rest@[i as int].1));
            }
            let entry: (String, Value) = rest.swap_remove(i);
            return Some(entry.1);
        }
        i = i + 1;
    }
    proof {
        lemma_lookup_skip(all, key@, n as int);
        assert(all.skip(n as int).len() == 0);
    }
    None
}

/// Takes one step into an opened value, moving the child out of it.
pub fn enter(shape: Shape, segment: &Segment) -> (r: Option<Value>)
    ensures
        match r {
            Some(v) => step(shape.tree(), segment@) == Some(tree_of(v)),
            None => step(shape.tree(), segment@) is None,
        },
{
    match shape {
        Shape::Array(items) => match segment {
            Segment::Index(_, index) => {
                if *index < items.len() {
                    let mut items = items;
                    Some(items.swap_remove(*index))
                } else {
                    None
                }
            },
            Segment::Key(_) => None,
        },
        Shape::Object(entries) => take_entry(entries, segment.text()),
        _ => None,
    }
}

/// Takes one step into a value, moving the child out of it.
pub fn take_step(value: Value, segment: &Segment) -> (r: Option<Value>)
    ensures
        match r {
            Some(v) => step(tree_of(value), segment@) == Some(tree_of(v)),
            None => step(tree_of(value), segment@) is None,
        },
{
    enter(open_value(value), segment)
}

/// Follows a path into a value and returns what it leads to, or `None` where
/// some step leads nowhere. The empty path leads to the value itself.
pub fn recurse(value: Value, segments: &[Segment]) -> (r: Option<Value>)
    ensures
        match r {
            Some(v) => descend(tree_of(value), path_view(segments@)) == Some(tree_of(v)),
            None => descend(tree_of(value), path_view(segments@)) is None,
        },
{
    let ghost path = path_view(segments@);
    let ghost goal = descend(tree_of(value), path);
    let n: usize = segments.len();
    let mut current: Value = value;
    let mut i: usize = 0;
    proof {
        assert(path.skip(0) =~= path);
    }
    while i < n
        invariant
            n == segments@.len(),
            0 <= i <= n,
            path == path_view(segments@),
            goal == descend(tree_of(value), path),
            descend(tree_of(current), path.skip(i as int)) == goal,
        decreases n - i,
    {
        proof {
            assert(path.skip(i as int).len() > 0);
            assert(path.skip(i as int)[0] == segments@[i as int]@);
            assert(path.skip(i as int).skip(1) =~= path.skip(i + 1));
        }
        let ghost here = tree_of(current);
        match take_step(current, &segments[i]) {
            Some(child) => {
                current = child;
            },
            None => {
                proof {
                    assert(step(here, path.skip(i as int)[0]) is None);
                    assert(descend(here, path.skip(i as int)) is None);
                }
                return None;
            },
        }
        i = i + 1;
    }
    proof {
        assert(path.skip(n as int).len() == 0);
    }
    Some(current)
}

/// A path of one step leads where the step leads.
pub proof fn law_single_step(t: Tree, s: Step)
    ensures
        descend(t, seq![s]) == step(t, s),
{
    let path = seq![s];
    assert(path.len() == 1);
    assert(path[0] == s);
    assert(path.skip(1).len() == 0);
    match step(t, s) {
        Some(child) => {
            assert(descend(child, path.skip(1)) == Some(child));
        },
        None => {},
    }
}

/// The empty path leads to the document itself, whatever the document.
pub proof fn law_empty_path(t: Tree)
    ensures
        descend(t, Seq::<Step>::empty()) == Some(t),
{
}

/// A single index leads into an array to the item at that position, and
/// nowhere where the position is not below the array's length. The text of
/// the index plays no part.
pub proof fn law_array_index(items: Seq<Tree>, text: Seq<char>, i: nat)
    ensures
        i < items.len() ==> descend(Tree::Array(items), seq![Step::Index(text, i)]) == Some(
            items[i as int],
        ),
        i >= items.len() ==> descend(Tree::Array(items), seq![Step::Index(text, i)]) is None,
{
    law_single_step(Tree::Array(items), Step::Index(text, i));
}

/// What a lookup finds: the value of the first entry with the key, and
/// nothing exactly where no entry has the key.
pub proof fn law_lookup(entries: Seq<(Seq<char>, Tree)>, key: Seq<char>)
    ensures
        match lookup(entries, key) {
            Some(v) => exists|i: int|
                0 <= i < entries.len() && #[trigger] entries[i] == (key, v) && forall|j: int|
                    0 <= j < i ==> (#[trigger] entries[j]).0 != key,
            None => forall|i: int| 0 <= i < entries.len() ==> (#[trigger] entries[i]).0 != key,
        },
    decreases entries.len(),
{
    if entries.len() == 0 {
    } else if entries[0].0 == key {
        assert(entries[0] == (key, entries[0].1));
    } else {
        let rest = entries.skip(1);
        law_lookup(rest, key);
        match lookup(rest, key) {
            Some(v) => {
                let i = choose|i: int|
                    0 <= i < rest.len() && #[trigger] rest[i] == (key, v) && forall|j: int|
                        0 <= j < i ==> (#[trigger] rest[j]).0 != key;
                assert(entries[i + 1] == rest[i]);
                assert forall|j: int| 0 <= j < i + 1 implies (#[trigger] entries[j]).0 != key by {
                    if j > 0 {
                        assert(entries[j] == rest[j - 1]);
                    }
                }
            },
            None => {
                assert forall|i: int| 0 <= i < entries.len() implies (#[trigger] entries[i]).0
                    != key by {
                    if i > 0 {
                        assert(entries[i] == rest[i - 1]);
                    }
                }
            },
        }
    }
}

/// A single step leads into an object to the value stored under the step's
/// text, and nowhere where the object has no such key. It makes no
/// difference whether the text was read as a key or as an index.
pub proof fn law_object_key(entries: Seq<(Seq<char>, Tree)>, key: Seq<char>, n: nat)
    ensures
        descend(Tree::Object(entries), seq![Step::Key(key)]) == lookup(entries, key),
        descend(Tree::Object(entries), seq![Step::Index(key, n)]) == lookup(entries, key),
{
    law_single_step(Tree::Object(entries), Step::Key(key));
    law_single_step(Tree::Object(entries), Step::Index(key, n));
}

/// A key never leads into an array, whatever its text.
pub proof fn law_array_key(items: Seq<Tree>, key: Seq<char>)
    ensures
        descend(Tree::Array(items), seq![Step::Key(key)]) is None,
{
    law_single_step(Tree::Array(items), Step::Key(key));
}

/// No step leads into a document that is neither an array nor an object.
pub proof fn law_scalar(t: Tree, path: Seq<Step>)
    requires
        !(t is Array),
        !(t is Object),
        path.len() > 0,
    ensures
        descend(t, path) is None,
{
}

/// Following a path is following its first step alone and then, from where
/// that leads, the rest of the path.
pub proof fn law_first_then_rest(t: Tree, path: Seq<Step>)
    requires
        path.len() > 0,
    ensures
        descend(t, path) == match descend(t, seq![path[0]]) {
            Some(child) => descend(child, path.skip(1)),
            None => None,
        },
{
    law_single_step(t, path[0]);
}

/// Following two paths one after the other is following their
/// concatenation.
pub proof fn law_concat(t: Tree, first: Seq<Step>, second: Seq<Step>)
    ensures
        descend(t, first + second) == match descend(t, first) {
            Some(mid) => descend(mid, second),
            None => None,
        },
    decreases first.len(),
{
    if first.len() == 0 {
        assert(first + second =~= second);
    } else {
        let whole = first + second;
        assert(whole[0] == first[0]);
        assert(whole.skip(1) =~= first.skip(1) + second);
        match step(t, first[0]) {
            Some(child) => {
                law_concat(child, first.skip(1), second);
            },
            None => {},
        }
    }
}

} // verus!
