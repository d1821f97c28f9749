//! Lexically scoped environments: a store of frames, each a name-to-value
//! table with an optional parent. Closures refer to frames by index, which
//! keeps ownership acyclic even though closures capture environments that
//! may in turn hold those closures.
use vstd::prelude::*;
use std::rc::Rc;

use crate::value::{rc_dup, SpecValue, Value};

verus! {

/// One environment frame: its bindings (most recent last) and its parent.
pub struct Frame {
    entries: Vec<(String, Rc<Value>)>,
    parent: Option<usize>,
}

/// The model of a frame: a finite map of bindings and the parent index.
pub struct SpecFrame {
    pub vars: Map<Seq<char>, SpecValue>,
    pub parent: Option<int>,
}

/// The bindings a list of entries denotes: the last write wins.
pub open spec fn assoc_map(s: Seq<(String, Rc<Value>)>) -> Map<Seq<char>, SpecValue>
    decreases s.len(),
{
    if s.len() == 0 {
        Map::empty()
    } else {
        assoc_map(s.drop_last()).insert(s.last().0@, s.last().1@)
    }
}

impl View for Frame {
    type V = SpecFrame;

    closed spec fn view(&self) -> SpecFrame {
        SpecFrame {
            vars: assoc_map(self.entries@),
            parent: match self.parent {
                Some(p) => Some(p as int),
                None => None,
            },
        }
    }
}

/// The store of environment frames. Frames form a tree rooted at frame 0,
/// the global frame; a frame's parent always has a smaller index, so no
/// frame is its own ancestor.
pub struct Env {
    frames: Vec<Frame>,
}

impl View for Env {
    type V = Seq<SpecFrame>;

    closed spec fn view(&self) -> Seq<SpecFrame> {
        self.frames@.map_values(|f: Frame| f@)
    }
}

/// Name lookup: search the frame, then its parent chain; the first hit
/// wins. A frame index out of range, or a parent pointer that does not
/// point at an earlier frame, holds no bindings.
pub open spec fn spec_lookup(frames: Seq<SpecFrame>, id: int, key: Seq<char>) -> Option<SpecValue>
    decreases id,
{
    if 0 <= id < frames.len() {
        if frames[id].vars.contains_key(key) {
            Some(frames[id].vars[key])
        } else {
            match frames[id].parent {
                Some(p) => if 0 <= p < id {
                    spec_lookup(frames, p, key)
                } else {
                    None
                },
                None => None,
            }
        }
    } else {
        None
    }
}

/// Writing a binding into one frame; anywhere out of range, a no-op.
pub open spec fn spec_define(
    frames: Seq<SpecFrame>,
    id: int,
    key: Seq<char>,
    val: SpecValue,
) -> Seq<SpecFrame> {
    if 0 <= id < frames.len() {
        frames.update(
            id,
            SpecFrame { vars: frames[id].vars.insert(key, val), parent: frames[id].parent },
        )
    } else {
        frames
    }
}

/// Allocating a fresh empty frame whose parent is `parent`.
pub open spec fn spec_new_frame(frames: Seq<SpecFrame>, parent: int) -> Seq<SpecFrame> {
    frames.push(SpecFrame { vars: Map::empty(), parent: Some(parent) })
}

/// Whether frame `g` lies on the parent chain of frame `f` (itself
/// included), following only well-formed parent links.
pub open spec fn on_chain(frames: Seq<SpecFrame>, f: int, g: int) -> bool
    decreases f,
{
    if 0 <= f < frames.len() {
        f == g || match frames[f].parent {
            Some(p) => 0 <= p < f && on_chain(frames, p, g),
            None => false,
        }
    } else {
        false
    }
}

/// Lexical scoping: what a closure captured in frame `f` sees is fixed by
/// `f`'s own chain. A later binding written into any frame off that chain
/// — in particular a name shadowed in a child frame — never changes what
/// lookup from `f` finds.
pub proof fn lemma_lexical_scoping(
    frames: Seq<SpecFrame>,
    f: int,
    g: int,
    name: Seq<char>,
    v: SpecValue,
    key: Seq<char>,
)
    requires
        !on_chain(frames, f, g),
    ensures
        spec_lookup(spec_define(frames, g, name, v), f, key) == spec_lookup(frames, f, key),
    decreases f,
{
    let after = spec_define(frames, g, name, v);
    if 0 <= f < frames.len() {
        assert(f != g);
        assert(after[f] == frames[f]);
        match frames[f].parent {
            Some(p) => {
                if 0 <= p < f {
                    lemma_lexical_scoping(frames, p, g, name, v, key);
                }
            },
            None => {},
        }
    }
}

/// Allocating new frames never changes what lookup finds in the old ones.
pub proof fn lemma_lookup_unchanged_by_growth(
    frames: Seq<SpecFrame>,
    more: Seq<SpecFrame>,
    f: int,
    key: Seq<char>,
)
    requires
        0 <= f < frames.len(),
    ensures
        spec_lookup(frames + more, f, key) == spec_lookup(frames, f, key),
    decreases f,
{
    let grown = frames + more;
    assert(grown[f] == frames[f]);
    match frames[f].parent {
        Some(p) => {
            if 0 <= p < f {
                lemma_lookup_unchanged_by_growth(frames, more, p, key);
            }
        },
        None => {},
    }
}

/// An entry at `i` whose key is not repeated later is what the map holds.
proof fn lemma_assoc_found(s: Seq<(String, Rc<Value>)>, i: int, key: Seq<char>)
    requires
        0 <= i < s.len(),
        s[i].0@ == key,
        forall|j: int| i < j < s.len() ==> s[j].0@ != key,
    ensures
        assoc_map(s).contains_key(key),
        assoc_map(s)[key] == s[i].1@,
    decreases s.len(),
{
    if i == s.len() - 1 {
    } else {
        assert(s.drop_last()[i] == s[i]);
        lemma_assoc_found(s.drop_last(), i, key);
    }
}

/// A key on no entry is not in the map.
proof fn lemma_assoc_absent(s: Seq<(String, Rc<Value>)>, key: Seq<char>)
    requires
        forall|j: int| 0 <= j < s.len() ==> s[j].0@ != key,
    ensures
        !assoc_map(s).contains_key(key),
    decreases s.len(),
{
    if s.len() > 0 {
        lemma_assoc_absent(s.drop_last(), key);
    }
}

/// Looks a name up in one frame's own entries, most recent write first.
fn frame_get(entries: &Vec<(String, Rc<Value>)>, key: &str) -> (r: Option<Rc<Value>>)
    ensures
        match r {
            Some(v) => assoc_map(entries@).contains_key(key@) && assoc_map(entries@)[key@] == v@,
            None => !assoc_map(entries@).contains_key(key@),
        },
{
    let mut i: usize = entries.len();
    while i > 0
        invariant
            i <= entries@.len(),
            forall|j: int| i <= j < entries@.len() ==> entries@[j].0@ != key@,
        decreases i,
    {
        i = i - 1;
        if crate::value::str_eq(entries[i].0.as_str(), key) {
            proof {
                lemma_assoc_found(entries@, i as int, key@);
            }
            return Some(rc_dup(&entries[i].1));
        }
    }
    proof {
        lemma_assoc_absent(entries@, key@);
    }
    None
}

impl Env {
    /// A store holding a single empty global frame, with nothing bound.
    pub fn bare() -> (e: Env)
        ensures
            e@ =~= seq![SpecFrame { vars: Map::empty(), parent: None }],
    {
        let mut frames: Vec<Frame> = Vec::new();
        frames.push(Frame { entries: Vec::new(), parent: None });
        proof {
            assert(assoc_map(Seq::<(String, Rc<Value>)>::empty()) =~= Map::<
                Seq<char>,
                SpecValue,
            >::empty());
        }
        Env { frames }
    }

    /// Looks `key` up starting from frame `frame`, walking the parent chain.
    pub fn get(&self, frame: usize, key: &str) -> (r: Option<Rc<Value>>)
        ensures
            match r {
                Some(v) => spec_lookup(self@, frame as int, key@) == Some(v@),
                None => spec_lookup(self@, frame as int, key@) is None,
            },
        decreases frame,
    {
        if frame >= self.frames.len() {
            return None;
        }
        let fr: &Frame = &self.frames[frame];
        proof {
            assert(self@[frame as int] == fr@);
        }
        match frame_get(&fr.entries, key) {
            Some(v) => Some(v),
            None => {
                match fr.parent {
                    Some(p) => {
                        if p < frame {
                            self.get(p, key)
                        } else {
                            None
                        }
                    },
                    None => None,
                }
            },
        }
    }

    /// Binds `key` to `value` in frame `frame` (overwriting any binding of
    /// the same name in that frame); a no-op on an index out of range.
    pub fn set(&mut self, frame: usize, key: &str, value: Rc<Value>)
        ensures
            final(self)@ == spec_define(old(self)@, frame as int, key@, value@),
            final(self)@.len() == old(self)@.len(),
    {
        let ghost prev = self@;
        if frame < self.frames.len() {
            let ghost prev_entries = self.frames@[frame as int].entries@;
            let k = String::from_str(key);
            let fr: &mut Frame = &mut self.frames[frame];
            fr.entries.push((k, value));
            proof {
                assert(self.frames@[frame as int].entries@.drop_last() =~= prev_entries);
                assert(self@ =~= spec_define(prev, frame as int, key@, value@));
            }
        } else {
            proof {
                assert(self@ =~= spec_define(prev, frame as int, key@, value@));
            }
        }
    }

    /// Allocates a fresh empty frame whose parent is `parent`; its index.
    pub fn new_with_parent(&mut self, parent: usize) -> (id: usize)
        ensures
            final(self)@ == spec_new_frame(old(self)@, parent as int),
            id == old(self)@.len(),
    {
        let ghost prev = self@;
        let id = self.frames.len();
        self.frames.push(Frame { entries: Vec::new(), parent: Some(parent) });
        proof {
            assert(assoc_map(Seq::<(String, Rc<Value>)>::empty()) =~= Map::<
                Seq<char>,
                SpecValue,
            >::empty());
            assert(self@ =~= spec_new_frame(prev, parent as int));
        }
        id
    }
}

} // verus!
