//! Environments: an arena of frames. A frame maps symbol text to values and
//! names its parent by index; a lambda names the frame it closes over in the
//! same way, so a frame lives as long as the arena does.

use vstd::prelude::*;
use vstd::string::StringExecFns;
use crate::core_ns::{apply_core_ns, lemma_core_ns_wf, with_core_ns};
use crate::types::{clone_meta, group_forms, meta_forms, Form, LispyType};

verus! {

broadcast use group_forms;

/// One scope: its bindings, and the frame that encloses it.
pub struct Frame {
    pub store: Vec<(String, LispyType)>,
    pub parent: Option<usize>,
}

/// An arena of frames, and the frame that `get_item` and `set_item` work on.
pub struct LispyEnv {
    pub frames: Vec<Frame>,
    pub current: usize,
}

pub ghost struct FrameModel {
    pub store: Seq<(Seq<char>, Form)>,
    pub parent: Option<usize>,
}

pub ghost struct EnvModel {
    pub frames: Seq<FrameModel>,
    pub current: usize,
}

impl View for Frame {
    type V = FrameModel;

    open spec fn view(&self) -> FrameModel {
        FrameModel { store: meta_forms(self.store@), parent: self.parent }
    }
}

/// The models of a sequence of frames, one for one.
pub open spec fn frame_models(frames: Seq<Frame>) -> Seq<FrameModel> {
    Seq::new(frames.len(), |i: int| frames[i]@)
}

impl View for LispyEnv {
    type V = EnvModel;

    open spec fn view(&self) -> EnvModel {
        EnvModel { frames: frame_models(self.frames@), current: self.current }
    }
}

/// Entry `i` is the first binding of `key`.
pub open spec fn first_binding(store: Seq<(Seq<char>, Form)>, key: Seq<char>, i: int) -> bool {
    &&& 0 <= i < store.len()
    &&& store[i].0 == key
    &&& forall|j: int| 0 <= j < i ==> (#[trigger] store[j]).0 != key
}

/// Where the first binding of `key` stands, if there is one.
pub open spec fn binding_position(store: Seq<(Seq<char>, Form)>, key: Seq<char>) -> Option<int> {
    if exists|i: int| first_binding(store, key, i) {
        Some(choose|i: int| first_binding(store, key, i))
    } else {
        None
    }
}

/// The value bound to `key` in one frame.
pub open spec fn store_get(store: Seq<(Seq<char>, Form)>, key: Seq<char>) -> Option<Form> {
    match binding_position(store, key) {
        Some(i) => Some(store[i].1),
        None => None,
    }
}

/// The frame after binding `key`: the first binding of `key` is replaced, or a
/// new binding is added at the end.
pub open spec fn store_set(store: Seq<(Seq<char>, Form)>, key: Seq<char>, value: Form) -> Seq<
    (Seq<char>, Form),
> {
    match binding_position(store, key) {
        Some(i) => store.update(i, (key, value)),
        None => store.push((key, value)),
    }
}

/// No key is bound twice.
pub open spec fn distinct_keys(store: Seq<(Seq<char>, Form)>) -> bool {
    forall|i: int, j: int|
        0 <= i < j < store.len() ==> (#[trigger] store[i]).0 != (#[trigger] store[j]).0
}

impl EnvModel {
    /// The value of `key` seen from `frame`: the frame's own binding, else what
    /// its parent sees. A frame that the arena does not hold sees nothing.
    pub open spec fn lookup(self, frame: usize, key: Seq<char>) -> Option<Form>
        decreases frame,
    {
        if frame >= self.frames.len() {
            None
        } else {
            match store_get(self.frames[frame as int].store, key) {
                Some(value) => Some(value),
                None => match self.frames[frame as int].parent {
                    Some(parent) => if parent < frame {
                        self.lookup(parent, key)
                    } else {
                        None
                    },
                    None => None,
                },
            }
        }
    }

    /// The arena after binding `key` in `frame` alone. Binding in a frame that
    /// the arena does not hold changes nothing.
    pub open spec fn bind(self, frame: usize, key: Seq<char>, value: Form) -> EnvModel {
        if frame >= self.frames.len() {
            self
        } else {
            EnvModel {
                frames: self.frames.update(
                    frame as int,
                    FrameModel {
                        store: store_set(self.frames[frame as int].store, key, value),
                        parent: self.frames[frame as int].parent,
                    },
                ),
                current: self.current,
            }
        }
    }

    /// The arena with one more frame, empty, under `parent`. Its index is the
    /// number of frames before.
    pub open spec fn push_frame(self, parent: usize) -> EnvModel {
        EnvModel {
            frames: self.frames.push(FrameModel { store: Seq::empty(), parent: Some(parent) }),
            current: self.current,
        }
    }

    /// The same arena, working on another frame.
    pub open spec fn at(self, frame: usize) -> EnvModel {
        EnvModel { frames: self.frames, current: frame }
    }

    /// In every frame no key is bound twice.
    pub open spec fn wf(self) -> bool {
        forall|i: int| 0 <= i < self.frames.len() ==> distinct_keys((#[trigger] self.frames[i]).store)
    }
}

/// An arena of one frame, empty and without a parent.
pub open spec fn bare_model() -> EnvModel {
    EnvModel { frames: seq![FrameModel { store: Seq::empty(), parent: None }], current: 0 }
}

/// The environment that `root` builds: one frame, holding the core namespace.
pub open spec fn root_model() -> EnvModel {
    with_core_ns(bare_model())
}

/// Seen from the frame it was made in, a binding gives its value under its
/// key, and every other key is seen as before.
pub proof fn lemma_lookup_after_bind(
    env: EnvModel,
    frame: usize,
    key: Seq<char>,
    value: Form,
    other: Seq<char>,
)
    requires
        frame < env.frames.len(),
    ensures
        env.bind(frame, key, value).lookup(frame, other) == if other == key {
            Some(value)
        } else {
            env.lookup(frame, other)
        },
        env.bind(frame, key, value).frames.len() == env.frames.len(),
        env.bind(frame, key, value).current == env.current,
{
    lemma_store_get_after_set(env.frames[frame as int].store, key, value, other);
    if other != key {
        match env.frames[frame as int].parent {
            Some(parent) => {
                if parent < frame {
                    lemma_lookup_below(env, frame, key, value, parent, other);
                }
            },
            None => {},
        }
    }
}

/// A binding in one frame is not seen from the frames before it.
pub proof fn lemma_lookup_below(
    env: EnvModel,
    frame: usize,
    key: Seq<char>,
    value: Form,
    from: usize,
    other: Seq<char>,
)
    requires
        from < frame,
    ensures
        env.bind(frame, key, value).lookup(from, other) == env.lookup(from, other),
    decreases from,
{
    if from < env.frames.len() && frame < env.frames.len() {
        match env.frames[from as int].parent {
            Some(parent) => {
                if parent < from {
                    lemma_lookup_below(env, frame, key, value, parent, other);
                }
            },
            None => {},
        }
    }
}

/// Whether the search for `key` from the frame `from` comes to the frame
/// `other`: it goes from a frame to its parent until a frame binds the key.
pub open spec fn on_path(env: EnvModel, from: usize, key: Seq<char>, other: usize) -> bool
    decreases from,
{
    if from >= env.frames.len() {
        false
    } else if from == other {
        true
    } else if store_get(env.frames[from as int].store, key) is Some {
        false
    } else {
        match env.frames[from as int].parent {
            Some(parent) => parent < from && on_path(env, parent, key, other),
            None => false,
        }
    }
}

/// What a closure sees does not change when a frame is bound in that its
/// search does not come to: a binding in the frame `other` leaves the value of
/// `key` seen from `from` as it was, where the search for `key` from `from`
/// ends before it comes to `other`.
pub proof fn law_binding_elsewhere(
    env: EnvModel,
    from: usize,
    key: Seq<char>,
    other: usize,
    bound: Seq<char>,
    value: Form,
)
    requires
        !on_path(env, from, key, other),
    ensures
        env.bind(other, bound, value).lookup(from, key) == env.lookup(from, key),
    decreases from,
{
    if from < env.frames.len() && other < env.frames.len() {
        if store_get(env.frames[from as int].store, key) is None {
            match env.frames[from as int].parent {
                Some(parent) => {
                    if parent < from {
                        law_binding_elsewhere(env, parent, key, other, bound, value);
                    }
                },
                None => {},
            }
        }
    }
}

/// A binding of one key leaves every other key as it was seen, from any
/// frame.
pub proof fn law_binding_other_key(
    env: EnvModel,
    from: usize,
    key: Seq<char>,
    other: usize,
    bound: Seq<char>,
    value: Form,
)
    requires
        bound != key,
    ensures
        env.bind(other, bound, value).lookup(from, key) == env.lookup(from, key),
    decreases from,
{
    if from < env.frames.len() && other < env.frames.len() {
        if from == other {
            lemma_store_get_after_set(env.frames[from as int].store, bound, value, key);
        }
        match env.frames[from as int].parent {
            Some(parent) => {
                if parent < from {
                    law_binding_other_key(env, parent, key, other, bound, value);
                }
            },
            None => {},
        }
    }
}

/// A fresh frame changes nothing that is seen from the frames that were
/// there.
pub proof fn law_fresh_frame_is_unseen(env: EnvModel, from: usize, key: Seq<char>, parent: usize)
    requires
        from < env.frames.len(),
    ensures
        env.push_frame(parent).lookup(from, key) == env.lookup(from, key),
    decreases from,
{
    match env.frames[from as int].parent {
        Some(above) => {
            if above < from {
                law_fresh_frame_is_unseen(env, above, key, parent);
            }
        },
        None => {},
    }
}

/// The first binding of a key is the only one that is first.
pub proof fn lemma_first_binding_unique(store: Seq<(Seq<char>, Form)>, key: Seq<char>, i: int)
    requires
        first_binding(store, key, i),
    ensures
        binding_position(store, key) == Some(i),
{
    let j = choose|j: int| first_binding(store, key, j);
    assert(first_binding(store, key, j));
    if j < i {
        assert(store[j].0 != key);
    }
    if i < j {
        assert(store[i].0 != key);
    }
}

/// Binding a key keeps the keys of a frame distinct.
pub proof fn lemma_store_set_distinct(store: Seq<(Seq<char>, Form)>, key: Seq<char>, value: Form)
    requires
        distinct_keys(store),
    ensures
        distinct_keys(store_set(store, key, value)),
{
    let after = store_set(store, key, value);
    match binding_position(store, key) {
        Some(i) => {
            assert(first_binding(store, key, i));
            assert forall|a: int, b: int| 0 <= a < b < after.len() implies (#[trigger] after[a]).0
                != (#[trigger] after[b]).0 by {
                assert(store[a].0 != store[b].0);
            }
        },
        None => {
            assert forall|a: int, b: int| 0 <= a < b < after.len() implies (#[trigger] after[a]).0
                != (#[trigger] after[b]).0 by {
                if b == store.len() {
                    if store[a].0 == key {
                        lemma_some_binding_has_first(store, key, a);
                    }
                } else {
                    assert(store[a].0 != store[b].0);
                }
            }
        },
    }
}

/// Where a key is bound at all, it has a first binding.
pub proof fn lemma_some_binding_has_first(store: Seq<(Seq<char>, Form)>, key: Seq<char>, at: int)
    requires
        0 <= at < store.len(),
        store[at].0 == key,
    ensures
        binding_position(store, key) is Some,
    decreases at,
{
    if forall|j: int| 0 <= j < at ==> (#[trigger] store[j]).0 != key {
        assert(first_binding(store, key, at));
    } else {
        let j = choose|j: int| 0 <= j < at && (#[trigger] store[j]).0 == key;
        lemma_some_binding_has_first(store, key, j);
    }
}

/// A binding keeps the keys of every frame distinct.
pub proof fn lemma_bind_wf(env: EnvModel, frame: usize, key: Seq<char>, value: Form)
    requires
        env.wf(),
    ensures
        env.bind(frame, key, value).wf(),
{
    if frame < env.frames.len() {
        lemma_store_set_distinct(env.frames[frame as int].store, key, value);
        let after = env.bind(frame, key, value);
        assert forall|i: int| 0 <= i < after.frames.len() implies distinct_keys(
            (#[trigger] after.frames[i]).store,
        ) by {
            if i != frame {
                assert(after.frames[i] == env.frames[i]);
            }
        }
    }
}

/// A fresh frame keeps the keys of every frame distinct.
pub proof fn lemma_push_frame_wf(env: EnvModel, parent: usize)
    requires
        env.wf(),
    ensures
        env.push_frame(parent).wf(),
{
    let after = env.push_frame(parent);
    assert forall|i: int| 0 <= i < after.frames.len() implies distinct_keys(
        (#[trigger] after.frames[i]).store,
    ) by {
        if i < env.frames.len() {
            assert(after.frames[i] == env.frames[i]);
        }
    }
}

/// After a binding, the frame holds the value under the key, and every other
/// key as before.
pub proof fn lemma_store_get_after_set(
    store: Seq<(Seq<char>, Form)>,
    key: Seq<char>,
    value: Form,
    other: Seq<char>,
)
    ensures
        store_get(store_set(store, key, value), other) == if other == key {
            Some(value)
        } else {
            store_get(store, other)
        },
{
    let after = store_set(store, key, value);
    match binding_position(store, key) {
        Some(i) => {
            assert(first_binding(store, key, i));
            if other == key {
                assert(first_binding(after, key, i)) by {
                    assert forall|j: int| 0 <= j < i implies (#[trigger] after[j]).0 != key by {
                        assert(store[j].0 != key);
                    }
                }
                lemma_first_binding_unique(after, key, i);
            } else {
                lemma_store_get_same(store, after, other);
            }
        },
        None => {
            if other == key {
                assert(first_binding(after, key, store.len() as int)) by {
                    assert forall|j: int| 0 <= j < store.len() implies (#[trigger] after[j]).0
                        != key by {
                        if store[j].0 == key {
                            lemma_some_binding_has_first(store, key, j);
                        }
                    }
                }
                lemma_first_binding_unique(after, key, store.len() as int);
            } else {
                lemma_store_get_same(store, after, other);
            }
        },
    }
}

/// Two frames that agree wherever either names `key` hold the same under it.
proof fn lemma_store_get_same(
    before: Seq<(Seq<char>, Form)>,
    after: Seq<(Seq<char>, Form)>,
    key: Seq<char>,
)
    requires
        before.len() <= after.len(),
        forall|j: int|
            0 <= j < before.len() ==> (#[trigger] before[j] == after[j] || (before[j].0 != key
                && after[j].0 != key)),
        forall|j: int| before.len() <= j < after.len() ==> (#[trigger] after[j]).0 != key,
    ensures
        store_get(after, key) == store_get(before, key),
{
    if exists|i: int| first_binding(before, key, i) {
        let i = choose|i: int| first_binding(before, key, i);
        assert(first_binding(after, key, i)) by {
            assert(before[i] == after[i]);
            assert forall|j: int| 0 <= j < i implies (#[trigger] after[j]).0 != key by {
                assert(before[j].0 != key);
                assert(before[j] == after[j] || after[j].0 != key);
            }
        }
        lemma_first_binding_unique(after, key, i);
    } else {
        if exists|i: int| first_binding(after, key, i) {
            let i = choose|i: int| first_binding(after, key, i);
            if i < before.len() {
                assert(before[i] == after[i] || after[i].0 != key);
                lemma_some_binding_has_first(before, key, i);
            } else {
                assert(after[i].0 != key);
            }
        }
    }
}

/// Finds the first binding of `key` in one frame.
pub fn find_binding(store: &Vec<(String, LispyType)>, key: &str) -> (r: Option<usize>)
    ensures
        match r {
            Some(i) => binding_position(meta_forms(store@), key@) == Some(i as int) && i
                < store.len(),
            None => binding_position(meta_forms(store@), key@) is None,
        },
{
    let ghost model = meta_forms(store@);
    let wanted = String::from_str(key);
    let mut i: usize = 0;
    while i < store.len()
        invariant
            i <= store.len(),
            model == meta_forms(store@),
            wanted@ == key@,
            forall|j: int| 0 <= j < i ==> (#[trigger] model[j]).0 != key@,
        decreases store.len() - i,
    {
        if store[i].0 == wanted {
            proof {
                lemma_first_binding_unique(model, key@, i as int);
            }
            return Some(i);
        }
        i += 1;
    }
    proof {
        if exists|k: int| first_binding(model, key@, k) {
            let k = choose|k: int| first_binding(model, key@, k);
            assert(model[k].0 != key@);
        }
    }
    None
}

impl Clone for Frame {
    fn clone(&self) -> (copy: Self)
        ensures
            copy@ == self@,
    {
        Frame { store: clone_meta(&self.store), parent: self.parent }
    }
}

impl Clone for LispyEnv {
    /// A copy of the whole arena.
    fn clone(&self) -> (copy: Self)
        ensures
            copy@ == self@,
    {
        let mut frames: Vec<Frame> = Vec::new();
        let mut i: usize = 0;
        while i < self.frames.len()
            invariant
                i <= self.frames.len(),
                frames.len() == i,
                forall|j: int| 0 <= j < i ==> frames[j]@ == self.frames[j]@,
            decreases self.frames.len() - i,
        {
            let frame = self.frames[i].clone();
            frames.push(frame);
            i += 1;
        }
        assert(frame_models(frames@) =~= frame_models(self.frames@));
        LispyEnv { frames, current: self.current }
    }
}

impl LispyEnv {
    /// The root environment: one frame, preloaded with the core namespace.
    pub fn root() -> (env: Self)
        ensures
            env@ == root_model(),
            env@.wf(),
    {
        proof {
            lemma_core_ns_wf(bare_model());
        }
        let mut this = Self { frames: Vec::new(), current: 0 };
        this.frames.push(Frame { store: Vec::new(), parent: None });
        assert(this@.frames[0].store =~= Seq::empty());
        assert(this@.frames =~= bare_model().frames);
        apply_core_ns(&mut this);
        this
    }

    /// A copy of `parent` that works on a fresh frame under the frame `parent`
    /// works on.
    pub fn child(parent: &mut LispyEnv) -> (env: Self)
        ensures
            env@ == old(parent)@.push_frame(old(parent).current).at(
                old(parent)@.frames.len() as usize,
            ),
            *final(parent) == *old(parent),
            old(parent)@.wf() ==> env@.wf(),
    {
        let mut env = parent.clone();
        let frame = env.push_frame(env.current);
        env.current = frame;
        env
    }

    /// `parent` itself, working on a fresh frame under the frame it worked on.
    pub fn child_lambda(parent: Box<LispyEnv>) -> (env: Self)
        ensures
            env@ == parent@.push_frame(parent.current).at(parent@.frames.len() as usize),
            parent@.wf() ==> env@.wf(),
    {
        let mut env = *parent;
        let frame = env.push_frame(env.current);
        env.current = frame;
        env
    }

    /// The value of `key`, seen from the frame this environment works on.
    pub fn get_item(&self, key: &String) -> (r: Option<&LispyType>)
        ensures
            match r {
                Some(value) => self@.lookup(self.current, key@) == Some(value@),
                None => self@.lookup(self.current, key@) is None,
            },
    {
        self.lookup(self.current, key.as_str())
    }

    /// Binds `key` in the frame this environment works on.
    pub fn set_item(&mut self, key: String, value: LispyType)
        ensures
            final(self)@ == old(self)@.bind(old(self).current, key@, value@),
            old(self)@.wf() ==> final(self)@.wf(),
    {
        let frame = self.current;
        self.bind(frame, key, value);
    }

    /// Binds `key` in the frame this environment works on.
    pub fn set(&mut self, key: &str, value: LispyType)
        ensures
            final(self)@ == old(self)@.bind(old(self).current, key@, value@),
            old(self)@.wf() ==> final(self)@.wf(),
    {
        let frame = self.current;
        self.bind(frame, String::from_str(key), value);
    }

    /// The value of `key`, seen from `frame`.
    pub fn lookup(&self, frame: usize, key: &str) -> (r: Option<&LispyType>)
        ensures
            match r {
                Some(value) => self@.lookup(frame, key@) == Some(value@),
                None => self@.lookup(frame, key@) is None,
            },
    {
        let mut at: usize = frame;
        loop
            invariant
                self@.lookup(at, key@) == self@.lookup(frame, key@),
            decreases at,
        {
            if at >= self.frames.len() {
                return None;
            }
            assert(self@.frames[at as int] == self.frames[at as int]@);
            match find_binding(&self.frames[at].store, key) {
                Some(i) => {
                    return Some(&self.frames[at].store[i].1);
                },
                None => {
                    match self.frames[at].parent {
                        Some(parent) => {
                            if parent < at {
                                at = parent;
                            } else {
                                return None;
                            }
                        },
                        None => {
                            return None;
                        },
                    }
                },
            }
        }
    }

    /// Binds `key` in `frame`, in place of its binding there if it has one.
    pub fn bind(&mut self, frame: usize, key: String, value: LispyType)
        ensures
            final(self)@ == old(self)@.bind(frame, key@, value@),
            old(self)@.wf() ==> final(self)@.wf(),
    {
        proof {
            if self@.wf() {
                lemma_bind_wf(self@, frame, key@, value@);
            }
        }
        if frame >= self.frames.len() {
            return ;
        }
        let ghost before = self@;
        assert(before.frames[frame as int] == self.frames[frame as int]@);
        match find_binding(&self.frames[frame].store, key.as_str()) {
            Some(i) => {
                self.frames[frame].store[i] = (key, value);
            },
            None => {
                self.frames[frame].store.push((key, value));
            },
        }
        assert(self@.frames[frame as int].store =~= store_set(
            before.frames[frame as int].store,
            key@,
            value@,
        ));
        assert(self@.frames =~= before.bind(frame, key@, value@).frames);
    }

    /// Adds an empty frame under `parent` and returns its index.
    pub fn push_frame(&mut self, parent: usize) -> (frame: usize)
        ensures
            final(self)@ == old(self)@.push_frame(parent),
            frame == old(self)@.frames.len(),
            old(self)@.wf() ==> final(self)@.wf(),
    {
        proof {
            if self@.wf() {
                lemma_push_frame_wf(self@, parent);
            }
        }
        let frame = self.frames.len();
        self.frames.push(Frame { store: Vec::new(), parent: Some(parent) });
        assert(self@.frames =~= old(self)@.push_frame(parent).frames) by {
            assert(meta_forms(Seq::<(String, LispyType)>::empty()) =~= Seq::<
                (Seq<char>, Form),
            >::empty());
        }
        frame
    }
}

} // verus!
