//! What plugins register: key bindings local to a buffer, callbacks keyed
//! by a number (a buffer id, or a command letter's code point), and
//! repeating timers tied to a buffer.
//!
//! Each table is a sequence whose keys occur at most once; the callbacks
//! themselves are the script engine's values and are only carried.

use vstd::prelude::*;
use crate::editor::{Editor, index_of_id, lemma_index_of_id};

verus! {

// ---------------------------------------------------------------------
// Key bindings
// ---------------------------------------------------------------------

/// A key bound, for one buffer, to a plugin's callback.
pub struct Binding<C> {
    pub key: String,
    pub buffer_id: u64,
    pub plugin: usize,
    pub callback: C,
}

pub struct BindingView<C> {
    pub key: Seq<char>,
    pub buffer_id: u64,
    pub plugin: usize,
    pub callback: C,
}

pub open spec fn binding_view<C>(b: Binding<C>) -> BindingView<C> {
    BindingView { key: b.key@, buffer_id: b.buffer_id, plugin: b.plugin, callback: b.callback }
}

pub open spec fn bindings_view<C>(v: Seq<Binding<C>>) -> Seq<BindingView<C>> {
    v.map_values(|b: Binding<C>| binding_view(b))
}

/// No key is bound twice.
pub open spec fn keys_unique<C>(s: Seq<BindingView<C>>) -> bool {
    forall|i: int, j: int| 0 <= i < s.len() && 0 <= j < s.len() && i != j ==> (#[trigger] s[i]).key != (#[trigger] s[j]).key
}

/// Where `key` is bound.
pub open spec fn key_index<C>(s: Seq<BindingView<C>>, key: Seq<char>) -> Option<int> {
    if exists|i: int| 0 <= i < s.len() && (#[trigger] s[i]).key == key {
        Some(choose|i: int| 0 <= i < s.len() && (#[trigger] s[i]).key == key)
    } else {
        None
    }
}

/// `key` bound to the given buffer, plugin and callback, replacing the
/// key's earlier binding.
pub open spec fn spec_bind<C>(s: Seq<BindingView<C>>, b: BindingView<C>) -> Seq<BindingView<C>> {
    match key_index(s, b.key) {
        Some(i) => s.update(i, b),
        None => s.push(b),
    }
}

/// The bindings of the active keymap: none until the first key is bound,
/// and none again once plugin mode is left.
pub struct Keymap<C> {
    bindings: Option<Vec<Binding<C>>>,
}

impl<C> View for Keymap<C> {
    type V = Option<Seq<BindingView<C>>>;

    closed spec fn view(&self) -> Option<Seq<BindingView<C>>> {
        match self.bindings {
            Some(v) => Some(bindings_view(v@)),
            None => None,
        }
    }
}

/// The bindings, empty when there is no keymap.
pub open spec fn bound<C>(k: Option<Seq<BindingView<C>>>) -> Seq<BindingView<C>> {
    match k {
        Some(s) => s,
        None => Seq::empty(),
    }
}

/// What `remove_keymap` removes: the key's binding, when it belongs to the
/// given buffer and plugin.
pub open spec fn removable<C>(k: Option<Seq<BindingView<C>>>, key: Seq<char>, buffer_id: u64, plugin: usize) -> Option<int> {
    match k {
        Some(s) => match key_index(s, key) {
            Some(i) => if s[i].buffer_id == buffer_id && s[i].plugin == plugin { Some(i) } else { None },
            None => None,
        },
        None => None,
    }
}

/// Where in `v` the key is bound.
fn find_key<C>(v: &Vec<Binding<C>>, key: &String) -> (r: Option<usize>)
    ensures
        r is Some <==> key_index(bindings_view(v@), key@) is Some,
        r matches Some(i) ==> i < v@.len() && v@[i as int].key@ == key@,
        keys_unique(bindings_view(v@)) ==> (r matches Some(i) ==> key_index(bindings_view(v@), key@) == Some(i as int)),
{
    let ghost s = bindings_view(v@);
    let mut i: usize = 0;
    while i < v.len()
        invariant
            i <= v@.len(),
            s == bindings_view(v@),
            forall|j: int| 0 <= j < i ==> (#[trigger] s[j]).key != key@,
        decreases v@.len() - i,
    {
        if v[i].key == *key {
            proof {
                assert(s[i as int].key == key@);
                if keys_unique(s) {
                    let w = choose|x: int| 0 <= x < s.len() && (#[trigger] s[x]).key == key@;
                    assert(s[w].key == key@);
                }
            }
            return Some(i);
        }
        i = i + 1;
    }
    proof {
        assert forall|x: int| 0 <= x < s.len() implies (#[trigger] s[x]).key != key@ by {}
    }
    None
}

impl<C> Keymap<C> {
    pub open spec fn wf(&self) -> bool {
        keys_unique(bound(self@))
    }

    /// No keymap.
    pub fn new() -> (r: Self)
        ensures
            r@ is None,
            r.wf(),
    {
        Keymap { bindings: None }
    }

    /// Bind `key` for the buffer `buffer_id` to a plugin's callback,
    /// replacing the key's earlier binding.
    pub fn bind(&mut self, key: String, buffer_id: u64, plugin: usize, callback: C)
        requires
            old(self).wf(),
        ensures
            final(self)@ == Some(spec_bind(bound(old(self)@), BindingView { key: key@, buffer_id, plugin, callback })),
            final(self).wf(),
    {
        let ghost nb = BindingView { key: key@, buffer_id, plugin, callback };
        let mut v = match self.bindings.take() {
            Some(v) => v,
            None => Vec::new(),
        };
        let ghost s = bindings_view(v@);
        proof {
            if old(self)@ is None {
                assert(s =~= Seq::<BindingView<C>>::empty());
            }
        }
        let at = find_key(&v, &key);
        let b = Binding { key, buffer_id, plugin, callback };
        match at {
            Some(i) => {
                v.set(i, b);
                proof {
                    assert(bindings_view(v@) =~= s.update(i as int, nb));
                }
            },
            None => {
                v.push(b);
                proof {
                    assert(bindings_view(v@) =~= s.push(nb));
                }
            },
        }
        self.bindings = Some(v);
        proof {
            let n = bound(self@);
            assert forall|i: int, j: int| 0 <= i < n.len() && 0 <= j < n.len() && i != j
                implies (#[trigger] n[i]).key != (#[trigger] n[j]).key by {
                if i < s.len() && j < s.len() {
                    if at != Some(i as usize) && at != Some(j as usize) {
                        assert(n[i] == s[i] && n[j] == s[j]);
                    }
                }
            }
        }
    }

    /// The binding of `key`, if any.
    pub fn get(&self, key: &str) -> (r: Option<&Binding<C>>)
        requires
            self.wf(),
        ensures
            match self@ {
                Some(s) => match key_index(s, key@) {
                    Some(i) => r matches Some(b) && binding_view(*b) == s[i],
                    None => r is None,
                },
                None => r is None,
            },
    {
        match &self.bindings {
            Some(v) => {
                let k = String::from_str(key);
                match find_key(v, &k) {
                    Some(i) => Some(&v[i]),
                    None => None,
                }
            },
            None => None,
        }
    }

    /// Remove `key`'s binding when it belongs to the buffer `buffer_id` and
    /// the plugin `plugin`; whether one was removed.
    pub fn remove_owned(&mut self, key: &str, buffer_id: u64, plugin: usize) -> (r: bool)
        requires
            old(self).wf(),
        ensures
            r == removable(old(self)@, key@, buffer_id, plugin) is Some,
            match removable(old(self)@, key@, buffer_id, plugin) {
                Some(i) => final(self)@ == Some(bound(old(self)@).remove(i)),
                None => final(self)@ == old(self)@,
            },
            final(self).wf(),
    {
        let k = String::from_str(key);
        let at = match &self.bindings {
            Some(v) => match find_key(v, &k) {
                Some(i) => if v[i].buffer_id == buffer_id && v[i].plugin == plugin { Some(i) } else { None },
                None => None,
            },
            None => None,
        };
        match at {
            Some(i) => {
                let mut v = match self.bindings.take() {
                    Some(v) => v,
                    None => Vec::new(),
                };
                let ghost s = bindings_view(v@);
                v.remove(i);
                proof {
                    assert(bindings_view(v@) =~= s.remove(i as int));
                }
                self.bindings = Some(v);
                proof {
                    let n = bound(self@);
                    assert forall|a: int, b: int| 0 <= a < n.len() && 0 <= b < n.len() && a != b
                        implies (#[trigger] n[a]).key != (#[trigger] n[b]).key by {
                        let oa = if a < i { a } else { a + 1 };
                        let ob = if b < i { b } else { b + 1 };
                        assert(n[a] == s[oa] && n[b] == s[ob]);
                    }
                }
                true
            },
            None => false,
        }
    }

    /// Whether some key is bound for the buffer `buffer_id`.
    pub fn has_buffer(&self, buffer_id: u64) -> (r: bool)
        ensures
            r == exists|i: int| 0 <= i < bound(self@).len() && (#[trigger] bound(self@)[i]).buffer_id == buffer_id,
    {
        match &self.bindings {
            Some(v) => {
                let ghost s = bindings_view(v@);
                let mut i: usize = 0;
                while i < v.len()
                    invariant
                        i <= v@.len(),
                        s == bindings_view(v@),
                        s == bound(self@),
                        forall|j: int| 0 <= j < i ==> (#[trigger] s[j]).buffer_id != buffer_id,
                    decreases v@.len() - i,
                {
                    if v[i].buffer_id == buffer_id {
                        assert(s[i as int].buffer_id == buffer_id);
                        return true;
                    }
                    i = i + 1;
                }
                false
            },
            None => false,
        }
    }

    /// Drop the keymap (leaving plugin mode).
    pub fn clear(&mut self)
        ensures
            final(self)@ is None,
            final(self).wf(),
    {
        self.bindings = None;
    }

    /// Drop every binding of the buffer `buffer_id` (it was closed).
    pub fn drop_buffer(&mut self, buffer_id: u64)
        requires
            old(self).wf(),
        ensures
            match old(self)@ {
                Some(s) => final(self)@ == Some(without_buffer(s, buffer_id)),
                None => final(self)@ is None,
            },
            final(self).wf(),
    {
        match self.bindings.take() {
            Some(v) => {
                let ghost s = bindings_view(v@);
                let mut out: Vec<Binding<C>> = Vec::new();
                let mut v = v;
                proof {
                    assert(s.take(0) =~= Seq::<BindingView<C>>::empty());
                    assert(bindings_view(out@) =~= Seq::<BindingView<C>>::empty());
                    assert(s.subrange(0, s.len() as int) =~= s);
                }
                while v.len() > 0
                    invariant
                        v@.len() <= s.len(),
                        bindings_view(v@) == s.subrange(s.len() - v@.len(), s.len() as int),
                        bindings_view(out@) == without_buffer(s.take(s.len() - v@.len()), buffer_id),
                    decreases v@.len(),
                {
                    let ghost k = s.len() - v@.len();
                    let ghost before = bindings_view(out@);
                    let ghost ov = v@;
                    let b = v.remove(0);
                    proof {
                        assert(bindings_view(ov)[0] == binding_view(ov[0]));
                        assert(bindings_view(ov)[0] == s[k]);
                        assert(bindings_view(v@) =~= bindings_view(ov).drop_first());
                        assert(s.take(k + 1).drop_last() =~= s.take(k));
                        assert(s.take(k + 1).last() == s[k]);
                        assert(bindings_view(v@) =~= s.subrange(k + 1, s.len() as int));
                        assert(binding_view(b) == s[k]);
                    }
                    if b.buffer_id != buffer_id {
                        out.push(b);
                        proof {
                            assert(bindings_view(out@) =~= before.push(s[k]));
                        }
                    }
                }
                proof {
                    assert(s.take(s.len() as int) =~= s);
                    lemma_without_unique(s, buffer_id);
                }
                self.bindings = Some(out);
            },
            None => {},
        }
    }
}

/// The bindings that do not belong to the buffer `id`, in order.
pub open spec fn without_buffer<C>(s: Seq<BindingView<C>>, id: u64) -> Seq<BindingView<C>>
    decreases s.len(),
{
    if s.len() == 0 {
        Seq::empty()
    } else {
        let rest = without_buffer(s.drop_last(), id);
        if s.last().buffer_id != id { rest.push(s.last()) } else { rest }
    }
}

proof fn lemma_without_in<C>(s: Seq<BindingView<C>>, id: u64)
    ensures
        forall|i: int| 0 <= i < without_buffer(s, id).len() ==> exists|j: int| 0 <= j < s.len() && #[trigger] without_buffer(s, id)[i] == s[j],
    decreases s.len(),
{
    if s.len() > 0 {
        let p = s.drop_last();
        lemma_without_in(p, id);
        let w = without_buffer(s, id);
        assert forall|i: int| 0 <= i < w.len() implies exists|j: int| 0 <= j < s.len() && #[trigger] w[i] == s[j] by {
            if i < without_buffer(p, id).len() {
                let j = choose|j: int| 0 <= j < p.len() && without_buffer(p, id)[i] == p[j];
                assert(w[i] == s[j]);
            } else {
                assert(w[i] == s[s.len() - 1]);
            }
        }
    }
}

proof fn lemma_without_unique<C>(s: Seq<BindingView<C>>, id: u64)
    requires
        keys_unique(s),
    ensures
        keys_unique(without_buffer(s, id)),
    decreases s.len(),
{
    if s.len() > 0 {
        let p = s.drop_last();
        assert(keys_unique(p)) by {
            assert forall|i: int, j: int| 0 <= i < p.len() && 0 <= j < p.len() && i != j
                implies (#[trigger] p[i]).key != (#[trigger] p[j]).key by {
                assert(p[i] == s[i] && p[j] == s[j]);
            }
        }
        lemma_without_unique(p, id);
        lemma_without_in(p, id);
        let wp = without_buffer(p, id);
        let w = without_buffer(s, id);
        if s.last().buffer_id != id {
            assert forall|i: int, j: int| 0 <= i < w.len() && 0 <= j < w.len() && i != j
                implies (#[trigger] w[i]).key != (#[trigger] w[j]).key by {
                if i < wp.len() && j < wp.len() {
                    assert(w[i] == wp[i] && w[j] == wp[j]);
                } else if i < wp.len() {
                    let x = choose|x: int| 0 <= x < p.len() && wp[i] == p[x];
                    assert(w[i] == s[x]);
                    assert(w[j] == s[s.len() - 1]);
                } else {
                    let x = choose|x: int| 0 <= x < p.len() && wp[j] == p[x];
                    assert(w[j] == s[x]);
                    assert(w[i] == s[s.len() - 1]);
                }
            }
        }
    }
}

// ---------------------------------------------------------------------
// Callbacks by number
// ---------------------------------------------------------------------

/// A plugin's callback registered under a number.
pub struct Entry<C> {
    pub id: u64,
    pub plugin: usize,
    pub callback: C,
}

pub open spec fn ids_unique<C>(s: Seq<Entry<C>>) -> bool {
    forall|i: int, j: int| 0 <= i < s.len() && 0 <= j < s.len() && i != j ==> (#[trigger] s[i]).id != (#[trigger] s[j]).id
}

/// Where `id` is registered.
pub open spec fn id_index<C>(s: Seq<Entry<C>>, id: u64) -> Option<int> {
    if exists|i: int| 0 <= i < s.len() && (#[trigger] s[i]).id == id {
        Some(choose|i: int| 0 <= i < s.len() && (#[trigger] s[i]).id == id)
    } else {
        None
    }
}

/// The entry registered, replacing an earlier one under the same number.
pub open spec fn spec_register<C>(s: Seq<Entry<C>>, e: Entry<C>) -> Seq<Entry<C>> {
    match id_index(s, e.id) {
        Some(i) => s.update(i, e),
        None => s.push(e),
    }
}

/// Callbacks keyed by a number: at most one per number.
pub struct Registry<C> {
    entries: Vec<Entry<C>>,
}

impl<C> View for Registry<C> {
    type V = Seq<Entry<C>>;

    closed spec fn view(&self) -> Seq<Entry<C>> {
        self.entries@
    }
}

fn find_id<C>(v: &Vec<Entry<C>>, id: u64) -> (r: Option<usize>)
    ensures
        r is Some <==> id_index(v@, id) is Some,
        r matches Some(i) ==> i < v@.len() && v@[i as int].id == id,
        ids_unique(v@) ==> (r matches Some(i) ==> id_index(v@, id) == Some(i as int)),
{
    let mut i: usize = 0;
    while i < v.len()
        invariant
            i <= v@.len(),
            forall|j: int| 0 <= j < i ==> (#[trigger] v@[j]).id != id,
        decreases v@.len() - i,
    {
        if v[i].id == id {
            proof {
                if ids_unique(v@) {
                    let w = choose|x: int| 0 <= x < v@.len() && (#[trigger] v@[x]).id == id;
                    assert(v@[w].id == id);
                }
            }
            return Some(i);
        }
        i = i + 1;
    }
    proof {
        assert forall|x: int| 0 <= x < v@.len() implies (#[trigger] v@[x]).id != id by {}
    }
    None
}

impl<C> Registry<C> {
    pub open spec fn wf(&self) -> bool {
        ids_unique(self@)
    }

    pub fn new() -> (r: Self)
        ensures
            r@ == Seq::<Entry<C>>::empty(),
            r.wf(),
    {
        Registry { entries: Vec::new() }
    }

    /// Register a plugin's callback under `id`, replacing an earlier one.
    pub fn register(&mut self, id: u64, plugin: usize, callback: C)
        requires
            old(self).wf(),
        ensures
            final(self)@ == spec_register(old(self)@, Entry { id, plugin, callback }),
            final(self).wf(),
    {
        let ghost s = self.entries@;
        let at = find_id(&self.entries, id);
        let e = Entry { id, plugin, callback };
        match at {
            Some(i) => {
                self.entries.set(i, e);
            },
            None => {
                self.entries.push(e);
            },
        }
        proof {
            let n = self.entries@;
            assert forall|a: int, b: int| 0 <= a < n.len() && 0 <= b < n.len() && a != b
                implies (#[trigger] n[a]).id != (#[trigger] n[b]).id by {
                if a < s.len() && b < s.len() {
                    if at != Some(a as usize) && at != Some(b as usize) {
                        assert(n[a] == s[a] && n[b] == s[b]);
                    }
                }
            }
        }
    }

    /// The callback registered under `id`, if any.
    pub fn get(&self, id: u64) -> (r: Option<&Entry<C>>)
        requires
            self.wf(),
        ensures
            match id_index(self@, id) {
                Some(i) => r matches Some(e) && *e == self@[i],
                None => r is None,
            },
    {
        match find_id(&self.entries, id) {
            Some(i) => Some(&self.entries[i]),
            None => None,
        }
    }
}

// ---------------------------------------------------------------------
// Timers
// ---------------------------------------------------------------------

/// A repeating timer: the plugin's callback runs every `duration_ns`
/// nanoseconds while the buffer `document_id` stays open.
pub struct TimerState<C> {
    pub id: u64,
    pub document_id: u64,
    pub duration_ns: u64,
    pub next_fire_ns: u64,
    pub plugin: usize,
    pub callback: C,
}

pub open spec fn timer_ids_unique<C>(s: Seq<TimerState<C>>) -> bool {
    forall|i: int, j: int| 0 <= i < s.len() && 0 <= j < s.len() && i != j ==> (#[trigger] s[i]).id != (#[trigger] s[j]).id
}

pub open spec fn timer_index<C>(s: Seq<TimerState<C>>, id: u64) -> Option<int> {
    if exists|i: int| 0 <= i < s.len() && (#[trigger] s[i]).id == id {
        Some(choose|i: int| 0 <= i < s.len() && (#[trigger] s[i]).id == id)
    } else {
        None
    }
}

/// `a + b`, or the largest time when that does not fit.
pub open spec fn later(a: u64, b: u64) -> u64 {
    if a + b <= u64::MAX { (a + b) as u64 } else { u64::MAX }
}

/// Whether a buffer with this id is open.
pub open spec fn doc_open(docs: Seq<crate::document::model::DocView>, id: u64) -> bool {
    index_of_id(docs, id) is Some
}

/// What a tick at `now` leaves of the timers, and the ids of those that
/// fire, in order: timers of closed buffers are dropped; a timer that is
/// due fires and is set to fire again a period later.
pub open spec fn spec_tick<C>(s: Seq<TimerState<C>>, now: u64, docs: Seq<crate::document::model::DocView>) -> (Seq<TimerState<C>>, Seq<u64>)
    decreases s.len(),
{
    if s.len() == 0 {
        (Seq::empty(), Seq::empty())
    } else {
        let (kept, fired) = spec_tick(s.drop_last(), now, docs);
        let t = s.last();
        if !doc_open(docs, t.document_id) {
            (kept, fired)
        } else if now >= t.next_fire_ns {
            (kept.push(TimerState { next_fire_ns: later(now, t.duration_ns), ..t }), fired.push(t.id))
        } else {
            (kept.push(t), fired)
        }
    }
}

/// The timers that do not belong to the buffer `id`, in order.
pub open spec fn timers_without<C>(s: Seq<TimerState<C>>, id: u64) -> Seq<TimerState<C>>
    decreases s.len(),
{
    if s.len() == 0 {
        Seq::empty()
    } else {
        let rest = timers_without(s.drop_last(), id);
        if s.last().document_id != id { rest.push(s.last()) } else { rest }
    }
}

/// The running timers and the next id to hand out.
pub struct Timers<C> {
    timers: Vec<TimerState<C>>,
    next_id: u64,
}

impl<C> View for Timers<C> {
    type V = (Seq<TimerState<C>>, u64);

    closed spec fn view(&self) -> (Seq<TimerState<C>>, u64) {
        (self.timers@, self.next_id)
    }
}

fn find_timer<C>(v: &Vec<TimerState<C>>, id: u64) -> (r: Option<usize>)
    ensures
        r is Some <==> timer_index(v@, id) is Some,
        r matches Some(i) ==> i < v@.len() && v@[i as int].id == id,
        timer_ids_unique(v@) ==> (r matches Some(i) ==> timer_index(v@, id) == Some(i as int)),
{
    let mut i: usize = 0;
    while i < v.len()
        invariant
            i <= v@.len(),
            forall|j: int| 0 <= j < i ==> (#[trigger] v@[j]).id != id,
        decreases v@.len() - i,
    {
        if v[i].id == id {
            proof {
                if timer_ids_unique(v@) {
                    let w = choose|x: int| 0 <= x < v@.len() && (#[trigger] v@[x]).id == id;
                    assert(v@[w].id == id);
                }
            }
            return Some(i);
        }
        i = i + 1;
    }
    proof {
        assert forall|x: int| 0 <= x < v@.len() implies (#[trigger] v@[x]).id != id by {}
    }
    None
}

/// Whether the buffer `id` is open in the editor.
fn buffer_open(editor: &Editor, id: u64) -> (r: bool)
    ensures
        r == doc_open(editor@.docs, id),
{
    editor.find_doc_index(id).is_some()
}

fn sat_add(a: u64, b: u64) -> (r: u64)
    ensures
        r == later(a, b),
{
    if a <= u64::MAX - b { a + b } else { u64::MAX }
}

impl<C> Timers<C> {
    pub open spec fn wf(&self) -> bool {
        timer_ids_unique(self@.0)
    }

    /// No timers; ids start at 1.
    pub fn new() -> (r: Self)
        ensures
            r@ == (Seq::<TimerState<C>>::empty(), 1u64),
            r.wf(),
    {
        Timers { timers: Vec::new(), next_id: 1 }
    }

    pub fn next_id(&self) -> (r: u64)
        ensures
            r == self@.1,
    {
        self.next_id
    }

    /// Hand out a fresh timer id.
    pub fn reserve(&mut self) -> (r: u64)
        requires
            old(self)@.1 < u64::MAX,
            old(self).wf(),
        ensures
            r == old(self)@.1,
            final(self)@ == (old(self)@.0, (old(self)@.1 + 1) as u64),
            final(self).wf(),
    {
        let id = self.next_id;
        self.next_id = id + 1;
        id
    }

    /// Start (or restart) the timer `id` for the buffer `document_id`,
    /// first firing `duration_ns` after `now_ns`; `false`, with nothing
    /// changed, when that buffer is not open.
    pub fn start(
        &mut self,
        id: u64,
        document_id: u64,
        duration_ns: u64,
        plugin: usize,
        callback: C,
        now_ns: u64,
        editor: &Editor,
    ) -> (r: bool)
        requires
            old(self).wf(),
        ensures
            r == doc_open(editor@.docs, document_id),
            r ==> final(self)@ == ({
                let t = TimerState { id, document_id, duration_ns, next_fire_ns: later(now_ns, duration_ns), plugin, callback };
                (match timer_index(old(self)@.0, id) {
                    Some(i) => old(self)@.0.update(i, t),
                    None => old(self)@.0.push(t),
                }, old(self)@.1)
            }),
            !r ==> final(self)@ == old(self)@,
            final(self).wf(),
    {
        if !buffer_open(editor, document_id) {
            return false;
        }
        let next = sat_add(now_ns, duration_ns);
        let t = TimerState { id, document_id, duration_ns, next_fire_ns: next, plugin, callback };
        let ghost s = self.timers@;
        match find_timer(&self.timers, id) {
            Some(i) => {
                self.timers.set(i, t);
            },
            None => {
                self.timers.push(t);
            },
        }
        proof {
            let n = self.timers@;
            assert forall|a: int, b: int| 0 <= a < n.len() && 0 <= b < n.len() && a != b
                implies (#[trigger] n[a]).id != (#[trigger] n[b]).id by {
                if a < s.len() && b < s.len() {
                    if n[a].id != id && n[b].id != id {
                        assert(n[a] == s[a] && n[b] == s[b]);
                    }
                }
            }
        }
        true
    }

    /// Stop the timer `id`; whether it was running.
    pub fn kill(&mut self, id: u64) -> (r: bool)
        requires
            old(self).wf(),
        ensures
            r == timer_index(old(self)@.0, id) is Some,
            match timer_index(old(self)@.0, id) {
                Some(i) => final(self)@ == (old(self)@.0.remove(i), old(self)@.1),
                None => final(self)@ == old(self)@,
            },
            final(self).wf(),
    {
        let ghost s = self.timers@;
        match find_timer(&self.timers, id) {
            Some(i) => {
                self.timers.remove(i);
                proof {
                    let n = self.timers@;
                    assert forall|a: int, b: int| 0 <= a < n.len() && 0 <= b < n.len() && a != b
                        implies (#[trigger] n[a]).id != (#[trigger] n[b]).id by {
                        let oa = if a < i { a } else { a + 1 };
                        let ob = if b < i { b } else { b + 1 };
                        assert(n[a] == s[oa] && n[b] == s[ob]);
                    }
                }
                true
            },
            None => false,
        }
    }

    /// The timer `id`, if it is running.
    pub fn get(&self, id: u64) -> (r: Option<&TimerState<C>>)
        requires
            self.wf(),
        ensures
            match timer_index(self@.0, id) {
                Some(i) => r matches Some(t) && *t == self@.0[i],
                None => r is None,
            },
    {
        match find_timer(&self.timers, id) {
            Some(i) => Some(&self.timers[i]),
            None => None,
        }
    }
}

impl<C> Timers<C> {
    /// Advance to `now_ns` (see `spec_tick`): the ids of the timers that
    /// fire, in order.
    pub fn tick(&mut self, now_ns: u64, editor: &Editor) -> (r: Vec<u64>)
        requires
            old(self).wf(),
        ensures
            (final(self)@.0, r@) == spec_tick(old(self)@.0, now_ns, editor@.docs),
            final(self)@.1 == old(self)@.1,
            final(self).wf(),
    {
        let ghost s = self.timers@;
        let ghost docs = editor@.docs;
        let mut v: Vec<TimerState<C>> = Vec::new();
        std::mem::swap(&mut v, &mut self.timers);
        let mut kept: Vec<TimerState<C>> = Vec::new();
        let mut fired: Vec<u64> = Vec::new();
        proof {
            assert(s.take(0) =~= Seq::<TimerState<C>>::empty());
            assert(s.subrange(0, s.len() as int) =~= s);
            assert(kept@ =~= Seq::<TimerState<C>>::empty());
            assert(fired@ =~= Seq::<u64>::empty());
        }
        while v.len() > 0
            invariant
                v@.len() <= s.len(),
                v@ == s.subrange(s.len() - v@.len(), s.len() as int),
                docs == editor@.docs,
                (kept@, fired@) == spec_tick(s.take(s.len() - v@.len()), now_ns, docs),
            decreases v@.len(),
        {
            let ghost k = s.len() - v@.len();
            let t = v.remove(0);
            proof {
                assert(s.take(k + 1).drop_last() =~= s.take(k));
                assert(s.take(k + 1).last() == s[k]);
                assert(v@ =~= s.subrange(k + 1, s.len() as int));
                assert(t == s[k]);
            }
            if buffer_open(editor, t.document_id) {
                if now_ns >= t.next_fire_ns {
                    let next = sat_add(now_ns, t.duration_ns);
                    fired.push(t.id);
                    kept.push(TimerState { next_fire_ns: next, ..t });
                } else {
                    kept.push(t);
                }
            }
        }
        proof {
            assert(s.take(s.len() as int) =~= s);
            lemma_tick_unique(s, now_ns, docs);
        }
        self.timers = kept;
        fired
    }

    /// Stop every timer of the buffer `document_id` (it was closed).
    pub fn drop_document(&mut self, document_id: u64)
        requires
            old(self).wf(),
        ensures
            final(self)@ == (timers_without(old(self)@.0, document_id), old(self)@.1),
            final(self).wf(),
    {
        let ghost s = self.timers@;
        let mut v: Vec<TimerState<C>> = Vec::new();
        std::mem::swap(&mut v, &mut self.timers);
        let mut kept: Vec<TimerState<C>> = Vec::new();
        proof {
            assert(s.take(0) =~= Seq::<TimerState<C>>::empty());
            assert(s.subrange(0, s.len() as int) =~= s);
            assert(kept@ =~= Seq::<TimerState<C>>::empty());
        }
        while v.len() > 0
            invariant
                v@.len() <= s.len(),
                v@ == s.subrange(s.len() - v@.len(), s.len() as int),
                kept@ == timers_without(s.take(s.len() - v@.len()), document_id),
            decreases v@.len(),
        {
            let ghost k = s.len() - v@.len();
            let t = v.remove(0);
            proof {
                assert(s.take(k + 1).drop_last() =~= s.take(k));
                assert(s.take(k + 1).last() == s[k]);
                assert(v@ =~= s.subrange(k + 1, s.len() as int));
                assert(t == s[k]);
            }
            if t.document_id != document_id {
                kept.push(t);
            }
        }
        proof {
            assert(s.take(s.len() as int) =~= s);
            lemma_timers_without_unique(s, document_id);
        }
        self.timers = kept;
    }
}

proof fn lemma_tick_in<C>(s: Seq<TimerState<C>>, now: u64, docs: Seq<crate::document::model::DocView>)
    ensures
        forall|i: int| 0 <= i < spec_tick(s, now, docs).0.len() ==> exists|j: int| 0 <= j < s.len()
            && (#[trigger] spec_tick(s, now, docs).0[i]).id == s[j].id,
    decreases s.len(),
{
    if s.len() > 0 {
        let p = s.drop_last();
        lemma_tick_in(p, now, docs);
        let k = spec_tick(s, now, docs).0;
        let kp = spec_tick(p, now, docs).0;
        assert forall|i: int| 0 <= i < k.len() implies exists|j: int| 0 <= j < s.len() && (#[trigger] k[i]).id == s[j].id by {
            if i < kp.len() {
                let j = choose|j: int| 0 <= j < p.len() && kp[i].id == p[j].id;
                assert(k[i] == kp[i]);
                assert(s[j] == p[j]);
            } else {
                assert(k[i].id == s[s.len() - 1].id);
            }
        }
    }
}

proof fn lemma_tick_unique<C>(s: Seq<TimerState<C>>, now: u64, docs: Seq<crate::document::model::DocView>)
    requires
        timer_ids_unique(s),
    ensures
        timer_ids_unique(spec_tick(s, now, docs).0),
    decreases s.len(),
{
    if s.len() > 0 {
        let p = s.drop_last();
        assert(timer_ids_unique(p)) by {
            assert forall|i: int, j: int| 0 <= i < p.len() && 0 <= j < p.len() && i != j
                implies (#[trigger] p[i]).id != (#[trigger] p[j]).id by {
                assert(p[i] == s[i] && p[j] == s[j]);
            }
        }
        lemma_tick_unique(p, now, docs);
        lemma_tick_in(p, now, docs);
        let kp = spec_tick(p, now, docs).0;
        let k = spec_tick(s, now, docs).0;
        assert forall|i: int, j: int| 0 <= i < k.len() && 0 <= j < k.len() && i != j
            implies (#[trigger] k[i]).id != (#[trigger] k[j]).id by {
            if i < kp.len() && j < kp.len() {
                assert(k[i] == kp[i] && k[j] == kp[j]);
            } else if i < kp.len() {
                let x = choose|x: int| 0 <= x < p.len() && kp[i].id == p[x].id;
                assert(k[i] == kp[i]);
                assert(s[x] == p[x]);
                assert(k[j].id == s[s.len() - 1].id);
            } else {
                let x = choose|x: int| 0 <= x < p.len() && kp[j].id == p[x].id;
                assert(k[j] == kp[j]);
                assert(s[x] == p[x]);
                assert(k[i].id == s[s.len() - 1].id);
            }
        }
    }
}

proof fn lemma_timers_without_in<C>(s: Seq<TimerState<C>>, id: u64)
    ensures
        forall|i: int| 0 <= i < timers_without(s, id).len() ==> exists|j: int| 0 <= j < s.len()
            && #[trigger] timers_without(s, id)[i] == s[j],
    decreases s.len(),
{
    if s.len() > 0 {
        let p = s.drop_last();
        lemma_timers_without_in(p, id);
        let w = timers_without(s, id);
        assert forall|i: int| 0 <= i < w.len() implies exists|j: int| 0 <= j < s.len() && #[trigger] w[i] == s[j] by {
            if i < timers_without(p, id).len() {
                let j = choose|j: int| 0 <= j < p.len() && timers_without(p, id)[i] == p[j];
                assert(w[i] == s[j]);
            } else {
                assert(w[i] == s[s.len() - 1]);
            }
        }
    }
}

proof fn lemma_timers_without_unique<C>(s: Seq<TimerState<C>>, id: u64)
    requires
        timer_ids_unique(s),
    ensures
        timer_ids_unique(timers_without(s, id)),
    decreases s.len(),
{
    if s.len() > 0 {
        let p = s.drop_last();
        assert(timer_ids_unique(p)) by {
            assert forall|i: int, j: int| 0 <= i < p.len() && 0 <= j < p.len() && i != j
                implies (#[trigger] p[i]).id != (#[trigger] p[j]).id by {
                assert(p[i] == s[i] && p[j] == s[j]);
            }
        }
        lemma_timers_without_unique(p, id);
        lemma_timers_without_in(p, id);
        let wp = timers_without(p, id);
        let w = timers_without(s, id);
        if s.last().document_id != id {
            assert forall|i: int, j: int| 0 <= i < w.len() && 0 <= j < w.len() && i != j
                implies (#[trigger] w[i]).id != (#[trigger] w[j]).id by {
                if i < wp.len() && j < wp.len() {
                    assert(w[i] == wp[i] && w[j] == wp[j]);
                } else if i < wp.len() {
                    let x = choose|x: int| 0 <= x < p.len() && wp[i] == p[x];
                    assert(w[i] == s[x]);
                    assert(w[j] == s[s.len() - 1]);
                } else {
                    let x = choose|x: int| 0 <= x < p.len() && wp[j] == p[x];
                    assert(w[j] == s[x]);
                    assert(w[i] == s[s.len() - 1]);
                }
            }
        }
    }
}

/// Closing a buffer leaves no key bound for it.
pub proof fn lemma_closed_buffer_unbound<C>(s: Seq<BindingView<C>>, id: u64)
    ensures
        forall|i: int| 0 <= i < without_buffer(s, id).len() ==> (#[trigger] without_buffer(s, id)[i]).buffer_id != id,
    decreases s.len(),
{
    if s.len() > 0 {
        lemma_closed_buffer_unbound(s.drop_last(), id);
        let w = without_buffer(s, id);
        let wp = without_buffer(s.drop_last(), id);
        assert forall|i: int| 0 <= i < w.len() implies (#[trigger] w[i]).buffer_id != id by {
            if i < wp.len() {
                assert(w[i] == wp[i]);
            }
        }
    }
}

/// Closing a buffer stops all its timers.
pub proof fn lemma_closed_buffer_no_timers<C>(s: Seq<TimerState<C>>, id: u64)
    ensures
        forall|i: int| 0 <= i < timers_without(s, id).len() ==> (#[trigger] timers_without(s, id)[i]).document_id != id,
    decreases s.len(),
{
    if s.len() > 0 {
        lemma_closed_buffer_no_timers(s.drop_last(), id);
        let w = timers_without(s, id);
        let wp = timers_without(s.drop_last(), id);
        assert forall|i: int| 0 <= i < w.len() implies (#[trigger] w[i]).document_id != id by {
            if i < wp.len() {
                assert(w[i] == wp[i]);
            }
        }
    }
}

/// After a tick every timer left belongs to an open buffer and none is
/// overdue.
pub proof fn lemma_tick_leaves_live_timers<C>(s: Seq<TimerState<C>>, now: u64, docs: Seq<crate::document::model::DocView>)
    ensures
        forall|i: int| 0 <= i < spec_tick(s, now, docs).0.len() ==> {
            &&& doc_open(docs, (#[trigger] spec_tick(s, now, docs).0[i]).document_id)
            &&& now <= spec_tick(s, now, docs).0[i].next_fire_ns
        },
    decreases s.len(),
{
    if s.len() > 0 {
        lemma_tick_leaves_live_timers(s.drop_last(), now, docs);
        let k = spec_tick(s, now, docs).0;
        let kp = spec_tick(s.drop_last(), now, docs).0;
        assert forall|i: int| 0 <= i < k.len() implies {
            &&& doc_open(docs, (#[trigger] k[i]).document_id)
            &&& now <= k[i].next_fire_ns
        } by {
            if i < kp.len() {
                assert(k[i] == kp[i]);
            }
        }
    }
}

/// A timer after a tick at `now`: set to fire a period later when it was
/// due, as it was otherwise.
pub open spec fn tick_one<C>(t: TimerState<C>, now: u64) -> TimerState<C> {
    if now >= t.next_fire_ns {
        TimerState { next_fire_ns: later(now, t.duration_ns), ..t }
    } else {
        t
    }
}

/// A tick keeps exactly the timers of open buffers, in order, each due one
/// set to fire a period later and the others unchanged; it fires exactly
/// the due timers of open buffers, in order, each once (timer ids being
/// distinct), and no other.
pub proof fn lemma_tick_fires_due_once<C>(s: Seq<TimerState<C>>, now: u64, docs: Seq<crate::document::model::DocView>)
    requires
        timer_ids_unique(s),
    ensures
        spec_tick(s, now, docs).0
            == s.filter(|t: TimerState<C>| doc_open(docs, t.document_id)).map_values(|t: TimerState<C>| tick_one(t, now)),
        spec_tick(s, now, docs).1
            == s.filter(|t: TimerState<C>| doc_open(docs, t.document_id) && now >= t.next_fire_ns).map_values(|t: TimerState<C>| t.id),
        forall|i: int| 0 <= i < s.len() ==>
            (spec_tick(s, now, docs).1.contains((#[trigger] s[i]).id) <==> (doc_open(docs, s[i].document_id) && now >= s[i].next_fire_ns)),
        forall|a: int, b: int| 0 <= a < b < spec_tick(s, now, docs).1.len()
            ==> #[trigger] spec_tick(s, now, docs).1[a] != #[trigger] spec_tick(s, now, docs).1[b],
    decreases s.len(),
{
    reveal(Seq::filter);
    let open = |t: TimerState<C>| doc_open(docs, t.document_id);
    let due = |t: TimerState<C>| doc_open(docs, t.document_id) && now >= t.next_fire_ns;
    if s.len() > 0 {
        let p = s.drop_last();
        assert(timer_ids_unique(p)) by {
            assert forall|i: int, j: int| 0 <= i < p.len() && 0 <= j < p.len() && i != j implies (#[trigger] p[i]).id != (#[trigger] p[j]).id by {
                assert(p[i] == s[i] && p[j] == s[j]);
            }
        }
        lemma_tick_fires_due_once(p, now, docs);
        lemma_fired_from(p, now, docs);
        let (kept, fired) = spec_tick(s, now, docs);
        let (kp, fp) = spec_tick(p, now, docs);
        let t = s.last();
        assert(kept =~= s.filter(open).map_values(|t: TimerState<C>| tick_one(t, now)));
        assert(fired =~= s.filter(due).map_values(|t: TimerState<C>| t.id));
        // the last timer's id is not among those fired before it
        assert forall|j: int| 0 <= j < fp.len() implies #[trigger] fp[j] != t.id by {
            let k = choose|k: int| 0 <= k < p.len() && (#[trigger] p[k]).id == fp[j];
            assert(s[k] == p[k]);
            assert(s[s.len() - 1] == t);
        }
        assert forall|i: int| 0 <= i < s.len() implies
            (fired.contains((#[trigger] s[i]).id) <==> (doc_open(docs, s[i].document_id) && now >= s[i].next_fire_ns)) by {
            if i < p.len() {
                assert(s[i] == p[i]);
                assert(s[i].id != t.id) by {
                    assert(s[s.len() - 1] == t);
                }
                if fired.contains(s[i].id) {
                    let j = choose|j: int| 0 <= j < fired.len() && fired[j] == s[i].id;
                    if j < fp.len() {
                        assert(fired[j] == fp[j]);
                        assert(fp.contains(s[i].id));
                    }
                }
                if fp.contains(s[i].id) {
                    let j = choose|j: int| 0 <= j < fp.len() && fp[j] == s[i].id;
                    assert(fired[j] == fp[j]);
                }
            } else {
                assert(s[i] == t);
                if due(t) {
                    assert(fired[fired.len() - 1] == t.id);
                } else {
                    assert(fired == fp);
                }
            }
        }
    }
}

/// Every id fired belongs to one of the timers.
proof fn lemma_fired_from<C>(s: Seq<TimerState<C>>, now: u64, docs: Seq<crate::document::model::DocView>)
    ensures
        forall|j: int| 0 <= j < spec_tick(s, now, docs).1.len() ==>
            exists|k: int| 0 <= k < s.len() && (#[trigger] s[k]).id == #[trigger] spec_tick(s, now, docs).1[j],
    decreases s.len(),
{
    if s.len() > 0 {
        let p = s.drop_last();
        lemma_fired_from(p, now, docs);
        let f = spec_tick(s, now, docs).1;
        let fp = spec_tick(p, now, docs).1;
        assert forall|j: int| 0 <= j < f.len() implies
            exists|k: int| 0 <= k < s.len() && (#[trigger] s[k]).id == #[trigger] f[j] by {
            if j < fp.len() {
                assert(f[j] == fp[j]);
                let k = choose|k: int| 0 <= k < p.len() && (#[trigger] p[k]).id == fp[j];
                assert(s[k] == p[k]);
            } else {
                assert(s[s.len() - 1].id == f[j]);
            }
        }
    }
}

/// The binding of `key`, if any.
pub open spec fn binding_of<C>(s: Seq<BindingView<C>>, key: Seq<char>) -> Option<BindingView<C>> {
    match key_index(s, key) {
        Some(i) => Some(s[i]),
        None => None,
    }
}

proof fn lemma_key_index_at<C>(s: Seq<BindingView<C>>, key: Seq<char>)
    requires
        keys_unique(s),
    ensures
        forall|j: int| 0 <= j < s.len() && (#[trigger] s[j]).key == key ==> key_index(s, key) == Some(j),
        key_index(s, key) matches Some(i) ==> 0 <= i < s.len() && s[i].key == key,
        key_index(s, key) is None ==> forall|j: int| 0 <= j < s.len() ==> (#[trigger] s[j]).key != key,
{
    if exists|i: int| 0 <= i < s.len() && (#[trigger] s[i]).key == key {
        let w = choose|i: int| 0 <= i < s.len() && (#[trigger] s[i]).key == key;
        assert(0 <= w < s.len() && s[w].key == key);
    }
}

/// Removing a key binding touches only that binding: afterwards the key is
/// unbound, and every other key is bound as it was.
pub proof fn lemma_remove_touches_only_that_key<C>(s: Seq<BindingView<C>>, key: Seq<char>, buffer_id: u64, plugin: usize)
    requires
        keys_unique(s),
        removable(Some(s), key, buffer_id, plugin) is Some,
    ensures
        ({
            let after = s.remove(removable(Some(s), key, buffer_id, plugin).unwrap());
            &&& binding_of(after, key) is None
            &&& forall|k: Seq<char>| k != key ==> #[trigger] binding_of(after, k) == binding_of(s, k)
        }),
{
    let i = removable(Some(s), key, buffer_id, plugin).unwrap();
    let after = s.remove(i);
    lemma_key_index_at(s, key);
    assert(keys_unique(after)) by {
        assert forall|a: int, b: int| 0 <= a < after.len() && 0 <= b < after.len() && a != b
            implies (#[trigger] after[a]).key != (#[trigger] after[b]).key by {
            let a2 = if a < i { a } else { a + 1 };
            let b2 = if b < i { b } else { b + 1 };
            assert(after[a] == s[a2] && after[b] == s[b2]);
        }
    }
    lemma_key_index_at(after, key);
    assert forall|j: int| 0 <= j < after.len() implies (#[trigger] after[j]).key != key by {
        let j2 = if j < i { j } else { j + 1 };
        assert(after[j] == s[j2]);
    }
    assert forall|k: Seq<char>| k != key implies #[trigger] binding_of(after, k) == binding_of(s, k) by {
        lemma_key_index_at(s, k);
        lemma_key_index_at(after, k);
        match key_index(s, k) {
            Some(m) => {
                assert(m != i);
                let m2 = if m < i { m } else { m - 1 };
                assert(after[m2] == s[m]);
            },
            None => {
                assert forall|j: int| 0 <= j < after.len() implies (#[trigger] after[j]).key != k by {
                    let j2 = if j < i { j } else { j + 1 };
                    assert(after[j] == s[j2]);
                }
            },
        }
    }
}

/// The binding a key press in buffer `active` runs, if any.
pub open spec fn dispatched<C>(k: Option<Seq<BindingView<C>>>, key: Seq<char>, active: u64) -> Option<BindingView<C>> {
    match binding_of(bound(k), key) {
        Some(b) => if b.buffer_id == active { Some(b) } else { None },
        None => None,
    }
}

/// A key press runs a binding exactly when the key is bound for the
/// active buffer, and then it runs that binding: a key bound for another
/// buffer runs nothing.
pub proof fn lemma_key_dispatch<C>(k: Option<Seq<BindingView<C>>>, key: Seq<char>, active: u64)
    requires
        keys_unique(bound(k)),
    ensures
        dispatched(k, key, active) is Some <==> exists|i: int| 0 <= i < bound(k).len()
            && (#[trigger] bound(k)[i]).key == key && bound(k)[i].buffer_id == active,
        dispatched(k, key, active) matches Some(b) ==> b.key == key && b.buffer_id == active
            && exists|i: int| 0 <= i < bound(k).len() && #[trigger] bound(k)[i] == b,
{
    let s = bound(k);
    lemma_key_index_at(s, key);
}

} // verus!
