use vstd::prelude::*;

use crate::types::{MalError, MalResult, MalType, Val, view_seq, lemma_view_seq};

verus! {

broadcast use vstd::std_specs::vec::group_vec_axioms;

/// A handle to a scope held by a `Heap`.
#[derive(Clone, Copy, Debug, PartialEq, Eq, Structural)]
pub struct Env {
    pub id: usize,
}

/// One scope: its own bindings, in the order they were made, and its parent.
#[derive(Debug)]
pub struct Frame {
    pub data: Vec<(String, MalType)>,
    pub parent: Option<usize>,
}

/// Everything that evaluation shares and mutates: the scopes, the reference
/// cells, the lines printed so far, and the files the host has made
/// readable.
#[derive(Debug)]
pub struct Heap {
    pub envs: Vec<Frame>,
    pub atoms: Vec<MalType>,
    pub output: Vec<String>,
    pub files: Vec<(String, String)>,
}

/// The model of a scope's bindings.
pub open spec fn frame_view(d: Seq<(String, MalType)>) -> Seq<(Seq<char>, Val)> {
    Seq::new(d.len(), |i: int| (d[i].0@, d[i].1.view()))
}

/// The position of the first binding of `k` at or after `i`, or the length.
pub open spec fn find_idx(d: Seq<(Seq<char>, Val)>, k: Seq<char>, i: int) -> int
    decreases d.len() - i,
{
    if i < 0 || i >= d.len() {
        d.len() as int
    } else if d[i].0 == k {
        i
    } else {
        find_idx(d, k, i + 1)
    }
}

pub proof fn lemma_find_idx_bounds(d: Seq<(Seq<char>, Val)>, k: Seq<char>, i: int)
    requires
        0 <= i,
    ensures
        i <= find_idx(d, k, i) <= d.len() || (i > d.len() && find_idx(d, k, i) == d.len()),
        find_idx(d, k, i) < d.len() ==> d[find_idx(d, k, i)].0 == k,
        forall|j: int| i <= j < find_idx(d, k, i) ==> d[j].0 != k,
    decreases d.len() - i,
{
    if i < d.len() && d[i].0 != k {
        lemma_find_idx_bounds(d, k, i + 1);
    }
}

/// What a scope binds `k` to, without looking at its parents.
pub open spec fn frame_get(d: Seq<(Seq<char>, Val)>, k: Seq<char>) -> Option<Val> {
    let i = find_idx(d, k, 0);
    if i < d.len() {
        Some(d[i].1)
    } else {
        None
    }
}

/// A scope's bindings after `k` is bound to `v`: an earlier binding of `k`
/// is replaced in place, otherwise the binding is added at the end.
pub open spec fn frame_set(d: Seq<(Seq<char>, Val)>, k: Seq<char>, v: Val) -> Seq<(Seq<char>, Val)> {
    let i = find_idx(d, k, 0);
    if i < d.len() {
        d.update(i, (k, v))
    } else {
        d.push((k, v))
    }
}

/// The bindings that a closure call makes: parameters are bound to
/// arguments left to right; after `&` the next parameter takes every
/// argument left, as a list, and binding stops; parameters without an
/// argument are left unbound.
pub open spec fn bind_params(
    d: Seq<(Seq<char>, Val)>,
    binds: Seq<Seq<char>>,
    exprs: Seq<Val>,
    more: bool,
) -> Seq<(Seq<char>, Val)>
    decreases binds.len(),
{
    if binds.len() == 0 {
        d
    } else if binds[0] == seq!['&'] {
        bind_params(d, binds.drop_first(), exprs, true)
    } else if more {
        frame_set(d, binds[0], Val::List(exprs))
    } else if exprs.len() > 0 {
        bind_params(frame_set(d, binds[0], exprs[0]), binds.drop_first(), exprs.drop_first(), false)
    } else {
        bind_params(d, binds.drop_first(), exprs, false)
    }
}

/// The model of a scope.
pub struct FrameView {
    pub data: Seq<(Seq<char>, Val)>,
    pub parent: Option<nat>,
}

/// The model of a heap.
pub struct HeapView {
    pub envs: Seq<FrameView>,
    pub atoms: Seq<Val>,
    pub output: Seq<Seq<char>>,
    pub files: Seq<(Seq<char>, Seq<char>)>,
}

pub open spec fn parent_view(p: Option<usize>) -> Option<nat> {
    match p {
        Some(i) => Some(i as nat),
        None => None,
    }
}

impl HeapView {
    /// Every scope's parent was made before it.
    pub open spec fn wf(self) -> bool {
        forall|i: int|
            0 <= i < self.envs.len() ==> match (#[trigger] self.envs[i]).parent {
                Some(p) => p < i,
                None => true,
            }
    }

    pub open spec fn valid_env(self, id: nat) -> bool {
        id < self.envs.len()
    }

    /// The scope, itself or an ancestor, that binds `k` first.
    pub open spec fn find_spec(self, id: int, k: Seq<char>) -> Option<int>
        decreases id,
    {
        if id < 0 || id >= self.envs.len() {
            None
        } else if frame_get(self.envs[id].data, k) is Some {
            Some(id)
        } else {
            match self.envs[id].parent {
                Some(p) => if p < id {
                    self.find_spec(p as int, k)
                } else {
                    None
                },
                None => None,
            }
        }
    }

    /// What `k` means in scope `id`.
    pub open spec fn lookup(self, id: int, k: Seq<char>) -> Option<Val> {
        match self.find_spec(id, k) {
            Some(j) => frame_get(self.envs[j].data, k),
            None => None,
        }
    }

    /// The heap after `k` is bound to `v` in scope `id`.
    pub open spec fn set_binding(self, id: int, k: Seq<char>, v: Val) -> HeapView {
        HeapView {
            envs: self.envs.update(
                id,
                FrameView { data: frame_set(self.envs[id].data, k, v), parent: self.envs[id].parent },
            ),
            ..self
        }
    }

    /// The heap with one more scope.
    pub open spec fn push_frame(self, data: Seq<(Seq<char>, Val)>, parent: Option<nat>) -> HeapView {
        HeapView { envs: self.envs.push(FrameView { data, parent }), ..self }
    }

    /// The heap with one more reference cell.
    pub open spec fn push_atom(self, v: Val) -> HeapView {
        HeapView { atoms: self.atoms.push(v), ..self }
    }

    /// The heap with reference cell `i` holding `v`.
    pub open spec fn set_atom(self, i: int, v: Val) -> HeapView {
        HeapView { atoms: self.atoms.update(i, v), ..self }
    }

    /// The heap with one more printed line.
    pub open spec fn print_line(self, line: Seq<char>) -> HeapView {
        HeapView { output: self.output.push(line), ..self }
    }

    pub proof fn lemma_find_spec(self, id: int, k: Seq<char>)
        ensures
            self.find_spec(id, k) is Some ==> {
                let j = self.find_spec(id, k)->Some_0;
                &&& 0 <= j < self.envs.len()
                &&& frame_get(self.envs[j].data, k) is Some
            },
        decreases id,
    {
        if 0 <= id < self.envs.len() && frame_get(self.envs[id].data, k) is None {
            match self.envs[id].parent {
                Some(p) => if p < id {
                    self.lemma_find_spec(p as int, k);
                },
                None => {},
            }
        }
    }
}

impl Heap {
    pub open spec fn view(&self) -> HeapView {
        HeapView {
            envs: Seq::new(
                self.envs@.len(),
                |i: int|
                    FrameView {
                        data: frame_view(self.envs@[i].data@),
                        parent: parent_view(self.envs@[i].parent),
                    },
            ),
            atoms: view_seq(self.atoms@),
            output: self.output@.map_values(|s: String| s@),
            files: self.files@.map_values(|p: (String, String)| (p.0@, p.1@)),
        }
    }

    pub open spec fn wf(&self) -> bool {
        self.view().wf()
    }

    /// The lines printed so far, which are removed from the heap.
    pub fn take_output(&mut self) -> (r: Vec<String>)
        requires
            old(self).wf(),
        ensures
            final(self).wf(),
            r@.map_values(|s: String| s@) == old(self).view().output,
            final(self).view() == (HeapView { output: Seq::empty(), ..old(self).view() }),
    {
        let ghost old_view = self.view();
        let out = self.output.split_off(0);
        assert(self.view().output =~= Seq::<Seq<char>>::empty());
        assert(self.view().envs =~= old_view.envs);
        out
    }

    /// Makes `contents` readable under `path`, ahead of any earlier file
    /// registered under that path.
    pub fn add_file(&mut self, path: String, contents: String)
        requires
            old(self).wf(),
        ensures
            final(self).wf(),
            final(self).view() == (HeapView {
                files: seq![(path@, contents@)] + old(self).view().files,
                ..old(self).view()
            }),
    {
        let ghost old_view = self.view();
        let ghost entry = (path@, contents@);
        self.files.insert(0, (path, contents));
        assert(self.view().files =~= seq![entry] + old_view.files);
        assert(self.view().envs =~= old_view.envs);
    }

    /// An empty heap.
    pub fn new() -> (r: Heap)
        ensures
            r.wf(),
            r.view().envs.len() == 0,
            r.view().atoms.len() == 0,
            r.view().output.len() == 0,
            r.view().files.len() == 0,
    {
        let h = Heap { envs: Vec::new(), atoms: Vec::new(), output: Vec::new(), files: Vec::new() };
        proof {
            lemma_view_seq(h.atoms@);
        }
        h
    }
}

/// The position of the first binding of `key` in `data`, or its length.
fn find_index(data: &Vec<(String, MalType)>, key: &String) -> (r: usize)
    ensures
        r == find_idx(frame_view(data@), key@, 0),
{
    let ghost d = frame_view(data@);
    let mut i: usize = 0;
    while i < data.len()
        invariant
            i <= data.len(),
            d == frame_view(data@),
            find_idx(d, key@, 0) == find_idx(d, key@, i as int),
        decreases data.len() - i,
    {
        if data[i].0 == *key {
            return i;
        }
        i = i + 1;
    }
    i
}

/// Binds `key` to `value` in `data`, replacing an earlier binding.
fn frame_insert(data: &mut Vec<(String, MalType)>, key: String, value: MalType)
    ensures
        frame_view(final(data)@) == frame_set(frame_view(old(data)@), key@, value.view()),
{
    let ghost d = frame_view(data@);
    let i = find_index(data, &key);
    proof {
        lemma_find_idx_bounds(d, key@, 0);
    }
    if i < data.len() {
        data.set(i, (key, value));
        assert(frame_view(data@) =~= d.update(i as int, (key@, value.view())));
    } else {
        data.push((key, value));
        assert(frame_view(data@) =~= d.push((key@, value.view())));
    }
}

impl Env {
    /// A new empty scope whose parent is `parent`.
    pub fn new(heap: &mut Heap, parent: Option<Env>) -> (r: Env)
        requires
            old(heap).wf(),
            parent is Some ==> parent->Some_0.id < old(heap).view().envs.len(),
            old(heap).view().envs.len() < usize::MAX,
        ensures
            final(heap).wf(),
            r.id == old(heap).view().envs.len(),
            final(heap).view() == old(heap).view().push_frame(Seq::empty(), env_id(parent)),
    {
        let data: Vec<(String, MalType)> = Vec::new();
        assert(frame_view(data@) =~= Seq::<(Seq<char>, Val)>::empty());
        push_scope(heap, data, parent)
    }

    /// A new scope under `parent` with `binds` bound to `exprs` as
    /// `bind_params` says.
    pub fn new_with_bindings(
        heap: &mut Heap,
        parent: Option<Env>,
        binds: Vec<String>,
        exprs: Vec<MalType>,
    ) -> (r: Env)
        requires
            old(heap).wf(),
            parent is Some ==> parent->Some_0.id < old(heap).view().envs.len(),
            old(heap).view().envs.len() < usize::MAX,
        ensures
            final(heap).wf(),
            r.id == old(heap).view().envs.len(),
            final(heap).view() == old(heap).view().push_frame(
                bind_params(
                    Seq::empty(),
                    binds@.map_values(|s: String| s@),
                    view_seq(exprs@),
                    false,
                ),
                env_id(parent),
            ),
    {
        let data = bind_frame(&binds, &exprs);
        push_scope(heap, data, parent)
    }

    /// Binds `key` to `value` in this scope only.
    pub fn set(&self, heap: &mut Heap, key: &str, value: MalType)
        requires
            old(heap).wf(),
            self.id < old(heap).view().envs.len(),
        ensures
            final(heap).wf(),
            final(heap).view() == old(heap).view().set_binding(self.id as int, key@, value.view()),
    {
        let ghost old_view = heap.view();
        let mut frame = heap.envs[self.id].clone_frame();
        frame_insert(&mut frame.data, key.to_owned(), value);
        heap.envs.set(self.id, frame);
        assert(heap.view().envs =~= old_view.set_binding(self.id as int, key@, value.view()).envs);
        assert(heap.view() == old_view.set_binding(self.id as int, key@, value.view()));
    }

    /// The scope, this one or an ancestor, that binds `key` first.
    pub fn find(&self, heap: &Heap, key: &str) -> (r: Option<Env>)
        requires
            heap.wf(),
        ensures
            match heap.view().find_spec(self.id as int, key@) {
                Some(j) => r == Some(Env { id: j as usize }),
                None => r is None,
            },
        decreases self.id,
    {
        if self.id >= heap.envs.len() {
            return None;
        }
        let k = key.to_owned();
        let i = find_index(&heap.envs[self.id].data, &k);
        if i < heap.envs[self.id].data.len() {
            Some(*self)
        } else {
            match heap.envs[self.id].parent {
                Some(p) => {
                    let parent = Env { id: p };
                    parent.find(heap, key)
                },
                None => None,
            }
        }
    }

    /// What `key` means in this scope.
    pub fn get(&self, heap: &Heap, key: &str) -> (r: MalResult)
        requires
            heap.wf(),
        ensures
            match heap.view().lookup(self.id as int, key@) {
                Some(v) => r is Ok && r->Ok_0.view() == v,
                None => r is Err && r->Err_0.reason is SymbolNotFound
                    && r->Err_0.reason->SymbolNotFound_0@ == key@,
            },
    {
        let found = self.find(heap, key);
        match found {
            Some(env) => {
                proof {
                    heap.view().lemma_find_spec(self.id as int, key@);
                    let j = heap.view().find_spec(self.id as int, key@)->Some_0;
                    assert(heap.envs.len() == heap.envs@.len());
                    assert(found == Some(Env { id: j as usize }));
                    assert(env.id as int == j);
                }
                let k = key.to_owned();
                let i = find_index(&heap.envs[env.id].data, &k);
                proof {
                    let d = heap.view().envs[env.id as int].data;
                    lemma_find_idx_bounds(d, key@, 0);
                    assert(d == frame_view(heap.envs@[env.id as int].data@));
                    assert(i < heap.envs@[env.id as int].data@.len());
                }
                Ok(heap.envs[env.id].data[i].1.deep_copy())
            },
            None => Err(MalError::symbol_not_found(key)),
        }
    }
}

/// The scope number of an optional handle.
pub open spec fn env_id(e: Option<Env>) -> Option<nat> {
    match e {
        Some(p) => Some(p.id as nat),
        None => None,
    }
}

/// Adds a scope with bindings `data` under `parent`.
pub(crate) fn push_scope(heap: &mut Heap, data: Vec<(String, MalType)>, parent: Option<Env>) -> (r: Env)
    requires
        old(heap).wf(),
        parent is Some ==> parent->Some_0.id < old(heap).view().envs.len(),
        old(heap).view().envs.len() < usize::MAX,
    ensures
        final(heap).wf(),
        r.id == old(heap).view().envs.len(),
        final(heap).view() == old(heap).view().push_frame(frame_view(data@), env_id(parent)),
{
    let ghost old_view = heap.view();
    let ghost d = frame_view(data@);
    let id = heap.envs.len();
    let p: Option<usize> = match parent {
        Some(e) => Some(e.id),
        None => None,
    };
    heap.envs.push(Frame { data, parent: p });
    assert(heap.view().envs =~= old_view.push_frame(d, env_id(parent)).envs);
    assert(heap.view() == old_view.push_frame(d, env_id(parent)));
    Env { id }
}

impl Frame {
    /// A copy of the scope with the same bindings and parent.
    pub fn clone_frame(&self) -> (r: Frame)
        ensures
            frame_view(r.data@) == frame_view(self.data@),
            r.parent == self.parent,
    {
        let mut data: Vec<(String, MalType)> = Vec::new();
        let mut i: usize = 0;
        while i < self.data.len()
            invariant
                i <= self.data.len(),
                data@.len() == i,
                forall|j: int|
                    0 <= j < i ==> (#[trigger] data@[j]).0@ == self.data@[j].0@ && data@[j].1.view()
                        == self.data@[j].1.view(),
            decreases self.data.len() - i,
        {
            let k = self.data[i].0.clone();
            let v = self.data[i].1.deep_copy();
            data.push((k, v));
            i = i + 1;
        }
        assert(frame_view(data@) =~= frame_view(self.data@));
        Frame { data, parent: self.parent }
    }
}

/// The bindings of a closure call's new scope, as `bind_params` says.
fn bind_frame(binds: &Vec<String>, exprs: &Vec<MalType>) -> (r: Vec<(String, MalType)>)
    ensures
        frame_view(r@) == bind_params(
            Seq::empty(),
            binds@.map_values(|s: String| s@),
            view_seq(exprs@),
            false,
        ),
{
    let ghost bs = binds@.map_values(|s: String| s@);
    let ghost es = view_seq(exprs@);
    let mut data: Vec<(String, MalType)> = Vec::new();
    let mut is_more = false;
    let mut i: usize = 0;
    let mut k: usize = 0;
    proof {
        lemma_view_seq(exprs@);
        assert(bs.subrange(0, bs.len() as int) =~= bs);
        assert(es.subrange(0, es.len() as int) =~= es);
        assert(frame_view(data@) =~= Seq::<(Seq<char>, Val)>::empty());
    }
    while i < binds.len()
        invariant
            i <= binds.len(),
            k <= exprs.len(),
            bs == binds@.map_values(|s: String| s@),
            es == view_seq(exprs@),
            es.len() == exprs@.len(),
            forall|j: int| 0 <= j < exprs@.len() ==> #[trigger] es[j] == exprs@[j].view(),
            bind_params(Seq::empty(), bs, es, false) == bind_params(
                frame_view(data@),
                bs.subrange(i as int, bs.len() as int),
                es.subrange(k as int, es.len() as int),
                is_more,
            ),
        decreases binds.len() - i,
    {
        let ghost rest_b = bs.subrange(i as int, bs.len() as int);
        let ghost rest_e = es.subrange(k as int, es.len() as int);
        assert(rest_b.drop_first() =~= bs.subrange(i + 1, bs.len() as int));
        assert(rest_b[0] == binds@[i as int]@);
        let is_amp = binds[i].eq(&amp_string());
        if is_amp {
            is_more = true;
        } else if is_more {
            let rest = crate::types::copy_range(exprs, k, exprs.len());
            proof {
                lemma_view_seq(exprs@.subrange(k as int, exprs@.len() as int));
                assert(view_seq(exprs@.subrange(k as int, exprs@.len() as int)) =~= rest_e);
            }
            frame_insert(&mut data, binds[i].clone(), MalType::List(rest));
            return data;
        } else if k < exprs.len() {
            let v = exprs[k].deep_copy();
            frame_insert(&mut data, binds[i].clone(), v);
            assert(rest_e.drop_first() =~= es.subrange(k + 1, es.len() as int));
            k = k + 1;
        } else {
        }
        i = i + 1;
    }
    assert(bs.subrange(i as int, bs.len() as int) =~= Seq::<Seq<char>>::empty());
    data
}

/// The parameter name that collects the remaining arguments.
fn amp_string() -> (r: String)
    ensures
        r@ == seq!['&'],
{
    proof {
        reveal_strlit("&");
    }
    "&".to_owned()
}

} // verus!
