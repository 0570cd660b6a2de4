use vstd::prelude::*;

verus! {

/// A listener: its handle, whether it is removed after its first event, and what it runs.
pub struct C<F> {
    id: u64,
    once: bool,
    f: F,
}

/// Listeners of one event, in the order they were added. `F` is the type of their functions
/// (`Box<dyn FnMut(usize)>` for listeners of different kinds).
pub struct AAA<F> {
    a: Vec<C<F>>,
    next_id: u64,
}

/// The listeners as (handle, removed after the first event) pairs.
pub closed spec fn listeners_view<F>(a: Seq<C<F>>) -> Seq<(u64, bool)> {
    Seq::new(a.len(), |i: int| (a[i].id, a[i].once))
}

impl<F> View for AAA<F> {
    type V = Seq<(u64, bool)>;

    closed spec fn view(&self) -> Seq<(u64, bool)> {
        listeners_view(self.a@)
    }
}

/// Where handle `p` stands among the listeners, -1 if it does not.
pub open spec fn listener_index(s: Seq<(u64, bool)>, p: u64) -> int
    decreases s.len(),
{
    if s.len() == 0 {
        -1
    } else if s.last().0 == p {
        let i = listener_index(s.drop_last(), p);
        if i >= 0 { i } else { s.len() - 1 }
    } else {
        listener_index(s.drop_last(), p)
    }
}

/// The listeners without the first one of handle `p`.
pub open spec fn without_listener(s: Seq<(u64, bool)>, p: u64) -> Seq<(u64, bool)> {
    let i = listener_index(s, p);
    if i >= 0 {
        s.remove(i)
    } else {
        s
    }
}

/// The listeners that stay after an event: those not added as once.
pub open spec fn staying(s: Seq<(u64, bool)>) -> Seq<(u64, bool)>
    decreases s.len(),
{
    if s.len() == 0 {
        s
    } else if s.last().1 {
        staying(s.drop_last())
    } else {
        staying(s.drop_last()).push(s.last())
    }
}

/// The functions of the listeners that stay after an event (see `staying`), in order: `fs` are
/// the functions of the listeners `s`, position by position.
pub open spec fn staying_functions<F>(fs: Seq<F>, s: Seq<(u64, bool)>) -> Seq<F>
    decreases s.len(),
{
    if s.len() == 0 || fs.len() == 0 {
        Seq::empty()
    } else if s.last().1 {
        staying_functions(fs.drop_last(), s.drop_last())
    } else {
        staying_functions(fs.drop_last(), s.drop_last()).push(fs.last())
    }
}

/// The functions of a list of listeners, in order.
pub closed spec fn functions_of<F>(a: Seq<C<F>>) -> Seq<F> {
    Seq::new(a.len(), |i: int| a[i].f)
}

/// Every handle below `next`, each once.
pub open spec fn handles_fresh(s: Seq<(u64, bool)>, next: u64) -> bool {
    &&& forall|i: int| 0 <= i < s.len() ==> #[trigger] s[i].0 < next
    &&& forall|i: int, j: int| 0 <= i < j < s.len() ==> #[trigger] s[i].0 != #[trigger] s[j].0
}

impl<F: FnMut(usize)> AAA<F> {
    /// The listeners are told apart by their handles, all below the next one to be given.
    pub closed spec fn wf(&self) -> bool {
        handles_fresh(self@, self.next_id)
    }

    /// How many more handles can be given out.
    pub closed spec fn spare_handles(&self) -> nat {
        (u64::MAX - self.next_id) as nat
    }

    /// Whether another listener can be added: handles are not used up.
    pub open spec fn can_add(&self) -> bool {
        self.spare_handles() > 0
    }

    /// The functions of the listeners, in the listeners' order.
    pub closed spec fn functions(&self) -> Seq<F> {
        functions_of(self.a@)
    }

    /// There is one function for each listener, at the listener's position.
    pub proof fn lemma_functions_match(&self)
        ensures
            self.functions().len() == self@.len(),
    {
    }

    /// No listeners.
    pub fn new() -> (r: Self)
        ensures
            r@ == Seq::<(u64, bool)>::empty(),
            r.functions() == Seq::<F>::empty(),
            r.wf(),
            r.spare_handles() == u64::MAX,
    {
        let r = Self { a: Vec::new(), next_id: 0 };
        assert(r@ =~= Seq::<(u64, bool)>::empty());
        r
    }

    /// Adds a listener at the end and returns its handle, which no other listener has.
    pub fn on_a(&mut self, f: F, once: bool) -> (p: u64)
        requires
            old(self).wf(),
            old(self).can_add(),
        ensures
            final(self).wf(),
            final(self)@ == old(self)@.push((p, once)),
            final(self).functions() == old(self).functions().push(f),
            final(self).spare_handles() == old(self).spare_handles() - 1,
            listener_index(old(self)@, p) == -1,
    {
        let id = self.next_id;
        let ghost before = self@;
        let ghost funcs = self.functions();
        self.a.push(C { id, once, f });
        self.next_id = id + 1;
        assert(self@ =~= before.push((id, once)));
        assert(self.functions() =~= funcs.push(f));
        proof {
            lemma_absent_index(before, id);
        }
        id
    }

    /// Removes the listener of handle `p`, if there is one.
    pub fn un_a(&mut self, p: u64)
        requires
            old(self).wf(),
        ensures
            final(self).wf(),
            final(self).spare_handles() == old(self).spare_handles(),
            final(self)@ == without_listener(old(self)@, p),
            final(self).functions() == if listener_index(old(self)@, p) >= 0 {
                old(self).functions().remove(listener_index(old(self)@, p))
            } else {
                old(self).functions()
            },
    {
        let ghost s = self@;
        let ghost funcs = self.functions();
        let mut i: usize = 0;
        while i < self.a.len()
            invariant
                i <= self.a@.len(),
                self.wf(),
                self@ == s,
                self.functions() == funcs,
                self.next_id == old(self).next_id,
                s == old(self)@,
                funcs == old(self).functions(),
                forall|j: int| 0 <= j < i ==> s[j].0 != p,
            decreases self.a@.len() - i,
        {
            if self.a[i].id == p {
                proof {
                    assert(s[i as int] == (self.a@[i as int].id, self.a@[i as int].once));
                    lemma_index_is_first(s, p, i as int);
                }
                let ghost before = self.a@;
                let _ = self.a.remove(i);
                assert(listeners_view(self.a@) =~= s.remove(i as int));
                assert(self.functions() =~= funcs.remove(i as int));
                assert(self@ == s.remove(i as int));
                assert(without_listener(s, p) == s.remove(i as int));
                proof {
                    let r = s.remove(i as int);
                    assert forall|x: int, y: int| 0 <= x < y < r.len() implies #[trigger] r[x].0 != #[trigger] r[y].0 by {
                        let xs = if x < i { x } else { x + 1 };
                        let ys = if y < i { y } else { y + 1 };
                        assert(r[x] == s[xs] && r[y] == s[ys]);
                    }
                    assert forall|x: int| 0 <= x < r.len() implies #[trigger] r[x].0 < self.next_id by {
                        let xs = if x < i { x } else { x + 1 };
                        assert(r[x] == s[xs]);
                    }
                }
                return;
            }
            assert(s[i as int] == (self.a@[i as int].id, self.a@[i as int].once));
            i = i + 1;
        }
        proof {
            lemma_absent_index(s, p);
        }
    }

    /// Calls every listener with `value`, in order, then removes those added as once.
    pub fn emit_a(&mut self, value: usize)
        requires
            old(self).wf(),
            forall|i: int| 0 <= i < old(self).functions().len() ==> call_requires(#[trigger] old(self).functions()[i], (value,)),
        ensures
            final(self).wf(),
            final(self).spare_handles() == old(self).spare_handles(),
            final(self)@ == staying(old(self)@),
            final(self).functions() == staying_functions(old(self).functions(), old(self)@),
            forall|i: int| 0 <= i < old(self).functions().len() ==> call_ensures(#[trigger] old(self).functions()[i], (value,), ()),
    {
        let ghost s = self@;
        let ghost funcs = self.functions();
        let mut i: usize = 0;
        while i < self.a.len()
            invariant
                i <= self.a@.len(),
                self.wf(),
                self@ == s,
                self.next_id == old(self).next_id,
                funcs == old(self).functions(),
                funcs.len() == self.a@.len(),
                forall|j: int| 0 <= j < funcs.len() ==> call_requires(#[trigger] funcs[j], (value,)),
                forall|j: int| 0 <= j < self.a@.len() ==> #[trigger] self.a@[j].f == funcs[j],
                forall|j: int| 0 <= j < i ==> call_ensures(#[trigger] funcs[j], (value,), ()),
            decreases self.a@.len() - i,
        {
            let ghost before = self.a@;
            assert(before[i as int].f == funcs[i as int]);
            assert(call_requires(funcs[i as int], (value,)));
            call_listener(&mut self.a[i], value);
            assert(self@ =~= s);
            assert forall|j: int| 0 <= j < self.a@.len() implies #[trigger] self.a@[j].f == funcs[j] by {
                if j != i {
                    assert(self.a@[j] == before[j]);
                }
            }
            i = i + 1;
        }
        assert(functions_of(self.a@) =~= funcs);
        let mut rest: Vec<C<F>> = Vec::new();
        std::mem::swap(&mut rest, &mut self.a);
        let mut kept: Vec<C<F>> = Vec::new();
        let ghost n = s.len();
        let mut k: usize = 0;
        while rest.len() > 0
            invariant
                self.next_id == old(self).next_id,
                handles_fresh(s, self.next_id),
                n == s.len(),
                n <= usize::MAX,
                k + rest@.len() == n,
                funcs.len() == n,
                listeners_view(rest@) == s.subrange(k as int, n as int),
                listeners_view(kept@) == staying(s.subrange(0, k as int)),
                functions_of(rest@) == funcs.subrange(k as int, n as int),
                functions_of(kept@) == staying_functions(funcs.subrange(0, k as int), s.subrange(0, k as int)),
            decreases rest@.len(),
        {
            assert(listeners_view(rest@)[0] == (rest@[0].id, rest@[0].once));
            assert(s.subrange(k as int, n as int)[0] == s[k as int]);
            assert(k < n);
            let ghost old_rest = rest@;
            let c = rest.remove(0);
            proof {
                assert(c.id == old_rest[0].id && c.once == old_rest[0].once);
                assert(s[k as int] == (c.id, c.once));
                let t = s.subrange(0, k + 1);
                assert(t.drop_last() =~= s.subrange(0, k as int));
                assert(t.last() == (c.id, c.once));
                assert(listeners_view(rest@) =~= listeners_view(old_rest).drop_first());
                assert(functions_of(rest@) =~= functions_of(old_rest).drop_first());
                assert(c.f == funcs[k as int]) by {
                    assert(functions_of(old_rest)[0] == old_rest[0].f);
                    assert(funcs.subrange(k as int, n as int)[0] == funcs[k as int]);
                }
                let g = funcs.subrange(0, k + 1);
                assert(g.drop_last() =~= funcs.subrange(0, k as int));
                assert(g.last() == c.f);
            }
            if !c.once {
                let ghost kb = kept@;
                kept.push(c);
                assert(listeners_view(kept@) =~= listeners_view(kb).push((c.id, c.once)));
                assert(functions_of(kept@) =~= functions_of(kb).push(c.f));
            }
            k = k + 1;
            assert(listeners_view(rest@) =~= s.subrange(k as int, n as int));
            assert(functions_of(rest@) =~= funcs.subrange(k as int, n as int));
        }
        assert(s.subrange(0, n as int) =~= s);
        assert(funcs.subrange(0, n as int) =~= funcs);
        self.a = kept;
        proof {
            lemma_staying_fresh(s, self.next_id);
        }
    }
}

/// Calls the listener's function with the value; the listener keeps its handle and kind.
fn call_listener<F: FnMut(usize)>(c: &mut C<F>, value: usize)
    requires
        call_requires(old(c).f, (value,)),
    ensures
        final(c).id == old(c).id,
        final(c).once == old(c).once,
        final(c).f == old(c).f,
        call_ensures(old(c).f, (value,), ()),
{
    (c.f)(value)
}

proof fn lemma_absent_index(s: Seq<(u64, bool)>, p: u64)
    requires
        forall|j: int| 0 <= j < s.len() ==> s[j].0 != p,
    ensures
        listener_index(s, p) == -1,
    decreases s.len(),
{
    if s.len() > 0 {
        let t = s.drop_last();
        assert forall|j: int| 0 <= j < t.len() implies t[j].0 != p by {
            assert(t[j] == s[j]);
        }
        lemma_absent_index(t, p);
    }
}

proof fn lemma_index_is_first(s: Seq<(u64, bool)>, p: u64, i: int)
    requires
        0 <= i < s.len(),
        s[i].0 == p,
        forall|j: int| 0 <= j < i ==> s[j].0 != p,
    ensures
        listener_index(s, p) == i,
    decreases s.len(),
{
    let t = s.drop_last();
    if i == s.len() - 1 {
        assert forall|j: int| 0 <= j < t.len() implies t[j].0 != p by {
            assert(t[j] == s[j]);
        }
        lemma_absent_index(t, p);
    } else {
        assert(t[i] == s[i]);
        assert forall|j: int| 0 <= j < i implies t[j].0 != p by {
            assert(t[j] == s[j]);
        }
        lemma_index_is_first(t, p, i);
    }
}

/// What stays of a list is made of its entries, in order.
proof fn lemma_staying_sub(s: Seq<(u64, bool)>)
    ensures
        forall|i: int| 0 <= i < staying(s).len() ==> exists|j: int| 0 <= j < s.len() && #[trigger] staying(s)[i] == s[j] && !s[j].1,
        staying(s).len() <= s.len(),
    decreases s.len(),
{
    if s.len() > 0 {
        let t = s.drop_last();
        lemma_staying_sub(t);
        assert forall|i: int| 0 <= i < staying(s).len() implies exists|j: int| 0 <= j < s.len() && #[trigger] staying(s)[i] == s[j] && !s[j].1 by {
            if i < staying(t).len() {
                let j = choose|j: int| 0 <= j < t.len() && staying(t)[i] == t[j] && !t[j].1;
                assert(s[j] == t[j]);
            } else {
                assert(staying(s)[i] == s[s.len() - 1]);
            }
        }
    }
}

proof fn lemma_staying_fresh(s: Seq<(u64, bool)>, next: u64)
    requires
        handles_fresh(s, next),
    ensures
        handles_fresh(staying(s), next),
    decreases s.len(),
{
    if s.len() > 0 {
        let t = s.drop_last();
        assert(handles_fresh(t, next)) by {
            assert forall|i: int, j: int| 0 <= i < j < t.len() implies #[trigger] t[i].0 != #[trigger] t[j].0 by {
                assert(t[i] == s[i] && t[j] == s[j]);
            }
            assert forall|i: int| 0 <= i < t.len() implies #[trigger] t[i].0 < next by {
                assert(t[i] == s[i]);
            }
        }
        lemma_staying_fresh(t, next);
        if !s.last().1 {
            lemma_staying_sub(t);
            let st = staying(t);
            let r = st.push(s.last());
            assert forall|i: int, j: int| 0 <= i < j < r.len() implies #[trigger] r[i].0 != #[trigger] r[j].0 by {
                if j == r.len() - 1 {
                    let k = choose|k: int| 0 <= k < t.len() && st[i] == t[k] && !t[k].1;
                    assert(t[k] == s[k]);
                    assert(s[k].0 != s[s.len() - 1].0);
                } else {
                    assert(r[i] == st[i] && r[j] == st[j]);
                }
            }
            assert forall|i: int| 0 <= i < r.len() implies #[trigger] r[i].0 < next by {
                if i < st.len() {
                    assert(r[i] == st[i]);
                }
            }
        }
    }
}

/// Adding a listener and removing it by its handle leaves the listeners and their functions
/// as they were; removing by a handle no listener has changes nothing.
pub proof fn lemma_un_a_undoes_on_a<F>(s: Seq<(u64, bool)>, fs: Seq<F>, p: u64, once: bool, f: F)
    requires
        listener_index(s, p) == -1,
    ensures
        listener_index(s.push((p, once)), p) == s.len(),
        without_listener(s.push((p, once)), p) == s,
        fs.push(f).remove(fs.len() as int) == fs,
        forall|q: u64| listener_index(s, q) == -1 ==> #[trigger] without_listener(s, q) == s,
{
    let t = s.push((p, once));
    assert(t.drop_last() =~= s);
    assert(t.remove(s.len() as int) =~= s);
    assert(fs.push(f).remove(fs.len() as int) =~= fs);
}

/// After an event, no listener added as once is left, and another event removes nothing more.
pub proof fn lemma_emit_leaves_no_once(s: Seq<(u64, bool)>)
    ensures
        forall|i: int| 0 <= i < staying(s).len() ==> !(#[trigger] staying(s)[i]).1,
        staying(staying(s)) == staying(s),
    decreases s.len(),
{
    lemma_staying_sub(s);
    if s.len() > 0 {
        let t = s.drop_last();
        lemma_emit_leaves_no_once(t);
        if !s.last().1 {
            let r = staying(t).push(s.last());
            assert(r.drop_last() =~= staying(t));
        }
    }
    lemma_staying_all_kept(staying(s));
}

proof fn lemma_staying_all_kept(s: Seq<(u64, bool)>)
    requires
        forall|i: int| 0 <= i < s.len() ==> !(#[trigger] s[i]).1,
    ensures
        staying(s) == s,
    decreases s.len(),
{
    if s.len() > 0 {
        let t = s.drop_last();
        assert forall|i: int| 0 <= i < t.len() implies !(#[trigger] t[i]).1 by {
            assert(t[i] == s[i]);
        }
        lemma_staying_all_kept(t);
        assert(t.push(s.last()) =~= s);
    }
}

} // verus!
