//! Bucket properties, and the commit hooks among them.
//!
//! For more information: https://docs.basho.com/riak/kv/latest/learn/concepts/buckets/
use crate::bytes::{IntoBytes, bytes_eq, copy_bytes, opt_slice_pair_view, opt_slice_view};
use crate::errors::RiakErr;
use crate::proto::kv::{
    RpbBucketProps, RpbBucketPropsView, RpbCommitHook, RpbCommitHookView, RpbModFun,
    RpbModFunView, RpbSetBucketReq, RpbSetBucketReqView, RpbSetBucketTypeReq,
    RpbSetBucketTypeReqView, rpb_bucket_props_empty, rpb_mod_fun_empty, rpb_set_bucket_req_bytes,
    rpb_set_bucket_type_req_bytes,
};
use vstd::prelude::*;
use vstd::std_specs::cmp::PartialEqSpecImpl;

verus! {

/// A commit hook as held in `CommitHooks`: its name, with its module and
/// function.
pub type HookEntry = (Vec<u8>, (Vec<u8>, Vec<u8>));

/// The value of a `HookEntry`.
pub open spec fn hook_entry_view(e: HookEntry) -> (Seq<u8>, (Seq<u8>, Seq<u8>)) {
    (e.0@, (e.1.0@, e.1.1@))
}

/// Commit hooks by name, each with a module and a function, as in a map: a
/// name stands once at most. The entries keep the order in which their names
/// first came.
#[derive(Debug, Eq)]
pub struct CommitHooks(Vec<HookEntry>);

/// The values of a sequence of `HookEntry`.
pub open spec fn hook_entries_view(s: Seq<HookEntry>) -> Seq<(Seq<u8>, (Seq<u8>, Seq<u8>))> {
    s.map_values(|e: HookEntry| hook_entry_view(e))
}

impl View for CommitHooks {
    type V = Seq<(Seq<u8>, (Seq<u8>, Seq<u8>))>;

    closed spec fn view(&self) -> Seq<(Seq<u8>, (Seq<u8>, Seq<u8>))> {
        hook_entries_view(self.0@)
    }
}

impl Clone for CommitHooks {
    /// The same commit hooks.
    fn clone(&self) -> (r: CommitHooks)
        ensures
            r@ == self@,
    {
        proof {
            use_type_invariant(self);
        }
        let mut out: Vec<HookEntry> = Vec::new();
        let mut i: usize = 0;
        while i < self.0.len()
            invariant
                i <= self.0@.len(),
                hook_entries_view(out@) == hook_entries_view(self.0@).take(i as int),
            decreases self.0@.len() - i,
        {
            let e = &self.0[i];
            let c: HookEntry = (
                copy_bytes(e.0.as_slice()),
                (copy_bytes(e.1.0.as_slice()), copy_bytes(e.1.1.as_slice())),
            );
            let ghost prev = hook_entries_view(out@);
            out.push(c);
            proof {
                assert(hook_entries_view(out@) =~= prev.push(hook_entry_view(c)));
                assert(hook_entries_view(self.0@).take(i + 1) =~= prev.push(
                    hook_entry_view(self.0@[i as int]),
                ));
            }
            i = i + 1;
        }
        proof {
            assert(hook_entries_view(self.0@).take(i as int) =~= hook_entries_view(self.0@));
        }
        CommitHooks(out)
    }
}

/// Whether `es` holds the entry `e`.
fn contains_entry(es: &Vec<HookEntry>, e: &HookEntry) -> (r: bool)
    ensures
        r == hook_entries_view(es@).contains(hook_entry_view(*e)),
{
    let ghost v = hook_entries_view(es@);
    let ghost ev = hook_entry_view(*e);
    let mut i: usize = 0;
    while i < es.len()
        invariant
            i <= es@.len(),
            v == hook_entries_view(es@),
            ev == hook_entry_view(*e),
            forall|j: int| 0 <= j < i ==> v[j] != ev,
        decreases es@.len() - i,
    {
        let x = &es[i];
        if bytes_eq(x.0.as_slice(), e.0.as_slice()) && bytes_eq(x.1.0.as_slice(), e.1.0.as_slice())
            && bytes_eq(x.1.1.as_slice(), e.1.1.as_slice()) {
            proof {
                assert(v[i as int] == ev);
            }
            return true;
        }
        proof {
            assert(v[i as int] == hook_entry_view(*x));
        }
        i = i + 1;
    }
    false
}

impl PartialEq for CommitHooks {
    /// Whether both hold the same hooks under the same names, whatever
    /// their order.
    fn eq(&self, other: &CommitHooks) -> (r: bool) {
        proof {
            assert(self@.len() == self.0@.len());
            assert(other@.len() == other.0@.len());
        }
        if self.0.len() != other.0.len() {
            return false;
        }
        let ghost v = self@;
        let mut i: usize = 0;
        while i < self.0.len()
            invariant
                i <= self.0@.len(),
                v == hook_entries_view(self.0@),
                forall|j: int| 0 <= j < i ==> other@.contains(v[j]),
            decreases self.0@.len() - i,
        {
            let found = contains_entry(&other.0, &self.0[i]);
            proof {
                assert(self@[i as int] == hook_entry_view(self.0@[i as int]));
                assert(other@ == hook_entries_view(other.0@));
            }
            if !found {
                return false;
            }
            i = i + 1;
        }
        true
    }
}

impl PartialEqSpecImpl for CommitHooks {
    open spec fn obeys_eq_spec() -> bool {
        true
    }

    open spec fn eq_spec(&self, other: &CommitHooks) -> bool {
        &&& self@.len() == other@.len()
        &&& forall|i: int| 0 <= i < self@.len() ==> other@.contains(#[trigger] self@[i])
    }
}

impl Default for CommitHooks {
    /// No commit hook.
    fn default() -> (r: CommitHooks)
        ensures
            r@ == Seq::<(Seq<u8>, (Seq<u8>, Seq<u8>))>::empty(),
    {
        CommitHooks::new()
    }
}

/// No name stands twice among the entries.
pub open spec fn names_distinct(es: Seq<(Seq<u8>, (Seq<u8>, Seq<u8>))>) -> bool {
    forall|i: int, j: int| 0 <= i < j < es.len() ==> es[i].0 != es[j].0
}

/// The position of the first entry from `i` on that has name `k`, or -1.
pub open spec fn find_name(es: Seq<(Seq<u8>, (Seq<u8>, Seq<u8>))>, k: Seq<u8>, i: nat) -> int
    decreases es.len() - i,
{
    if i >= es.len() {
        -1
    } else if es[i as int].0 == k {
        i as int
    } else {
        find_name(es, k, i + 1)
    }
}

/// Puts an entry in: it replaces the entry of the same name, or comes last.
pub open spec fn upsert(
    es: Seq<(Seq<u8>, (Seq<u8>, Seq<u8>))>,
    e: (Seq<u8>, (Seq<u8>, Seq<u8>)),
) -> Seq<(Seq<u8>, (Seq<u8>, Seq<u8>))> {
    let i = find_name(es, e.0, 0);
    if i >= 0 {
        es.update(i, e)
    } else {
        es.push(e)
    }
}

/// The entry for a hook of the wire: a missing name or module and function
/// are read as empty.
pub open spec fn hook_entry(h: RpbCommitHookView) -> (Seq<u8>, (Seq<u8>, Seq<u8>)) {
    let mf = match h.modfun {
        Some(m) => m,
        None => rpb_mod_fun_empty(),
    };
    let name = match h.name {
        Some(n) => n,
        None => Seq::empty(),
    };
    (name, (mf.module, mf.function))
}

/// The commit hooks that a sequence of hooks of the wire gives: each put in
/// in turn, a later one with a name replacing an earlier one.
pub open spec fn hooks_from_proto(s: Seq<RpbCommitHookView>) -> Seq<(Seq<u8>, (Seq<u8>, Seq<u8>))>
    decreases s.len(),
{
    if s.len() == 0 {
        Seq::empty()
    } else {
        upsert(hooks_from_proto(s.drop_last()), hook_entry(s.last()))
    }
}

/// The hook of the wire for an entry.
pub open spec fn hook_to_proto(e: (Seq<u8>, (Seq<u8>, Seq<u8>))) -> RpbCommitHookView {
    RpbCommitHookView {
        modfun: Some(RpbModFunView { module: e.1.0, function: e.1.1 }),
        name: Some(e.0),
    }
}

/// The hooks of the wire for the entries, in order.
pub open spec fn hooks_to_proto(es: Seq<(Seq<u8>, (Seq<u8>, Seq<u8>))>) -> Seq<RpbCommitHookView> {
    es.map_values(|e: (Seq<u8>, (Seq<u8>, Seq<u8>))| hook_to_proto(e))
}

proof fn lemma_find_name(es: Seq<(Seq<u8>, (Seq<u8>, Seq<u8>))>, k: Seq<u8>, i: nat)
    ensures
        find_name(es, k, i) >= 0 ==> i <= find_name(es, k, i) < es.len() && es[find_name(
            es,
            k,
            i,
        )].0 == k,
        find_name(es, k, i) < 0 ==> forall|j: int| i <= j < es.len() ==> es[j].0 != k,
        find_name(es, k, i) >= -1,
    decreases es.len() - i,
{
    if i < es.len() && es[i as int].0 != k {
        lemma_find_name(es, k, i + 1);
    }
}

/// Putting an entry in keeps names distinct.
proof fn lemma_upsert_distinct(
    es: Seq<(Seq<u8>, (Seq<u8>, Seq<u8>))>,
    e: (Seq<u8>, (Seq<u8>, Seq<u8>)),
)
    requires
        names_distinct(es),
    ensures
        names_distinct(upsert(es, e)),
{
    lemma_find_name(es, e.0, 0);
}

/// Reading back the hooks of the wire that a set of commit hooks gives
/// yields the same commit hooks, where their names are distinct.
pub proof fn lemma_hooks_roundtrip(es: Seq<(Seq<u8>, (Seq<u8>, Seq<u8>))>)
    requires
        names_distinct(es),
    ensures
        hooks_from_proto(hooks_to_proto(es)) == es,
    decreases es.len(),
{
    if es.len() > 0 {
        let init = es.drop_last();
        assert(hooks_to_proto(es).drop_last() =~= hooks_to_proto(init));
        assert(names_distinct(init));
        lemma_hooks_roundtrip(init);
        lemma_find_name(init, es.last().0, 0);
        assert(find_name(init, es.last().0, 0) < 0);
        assert(init.push(es.last()) =~= es);
    }
}

/// Looks up the position of the entry with name `k`.
fn find_entry(es: &Vec<HookEntry>, k: &[u8]) -> (r: Option<usize>)
    ensures
        match r {
            Some(i) => find_name(es@.map_values(|e: HookEntry| hook_entry_view(e)), k@, 0) == i,
            None => find_name(es@.map_values(|e: HookEntry| hook_entry_view(e)), k@, 0) < 0,
        },
{
    let ghost v = es@.map_values(|e: HookEntry| hook_entry_view(e));
    let mut i: usize = 0;
    while i < es.len()
        invariant
            i <= es@.len(),
            v == es@.map_values(|e: HookEntry| hook_entry_view(e)),
            find_name(v, k@, 0) == find_name(v, k@, i as nat),
        decreases es@.len() - i,
    {
        if bytes_eq(es[i].0.as_slice(), k) {
            return Some(i);
        }
        i = i + 1;
    }
    None
}

impl CommitHooks {
    #[verifier::type_invariant]
    spec fn names_are_distinct(self) -> bool {
        names_distinct(hook_entries_view(self.0@))
    }

    /// No commit hook.
    pub fn new() -> (r: CommitHooks)
        ensures
            r@ == Seq::<(Seq<u8>, (Seq<u8>, Seq<u8>))>::empty(),
    {
        let r = CommitHooks(Vec::new());
        proof {
            assert(hook_entries_view(r.0@) =~= Seq::<(Seq<u8>, (Seq<u8>, Seq<u8>))>::empty());
        }
        r
    }

    /// Sets the hook named `name` to `module` and `function`: it replaces the
    /// hook of that name, or comes last.
    pub fn insert<T: IntoBytes>(&mut self, name: T, module: T, function: T)
        ensures
            final(self)@ == upsert(
                old(self)@,
                (name.byte_view(), (module.byte_view(), function.byte_view())),
            ),
    {
        proof {
            use_type_invariant(&*self);
        }
        let e: HookEntry = (name.into_bytes(), (module.into_bytes(), function.into_bytes()));
        let ghost ev = hook_entries_view(self.0@);
        let ghost he = hook_entry_view(e);
        proof {
            lemma_upsert_distinct(ev, he);
            lemma_find_name(ev, he.0, 0);
        }
        let mut entries: Vec<HookEntry> = Vec::new();
        std::mem::swap(&mut entries, &mut self.0);
        proof {
            assert(hook_entries_view(entries@) == ev);
        }
        match find_entry(&entries, e.0.as_slice()) {
            Some(j) => {
                entries.set(j, e);
                proof {
                    assert(hook_entries_view(entries@) =~= ev.update(j as int, he));
                }
            },
            None => {
                entries.push(e);
                proof {
                    assert(hook_entries_view(entries@) =~= ev.push(he));
                }
            },
        }
        self.0 = entries;
    }

    /// The entries, in order; no name stands twice among them.
    pub fn entries(&self) -> (r: &[HookEntry])
        ensures
            hook_entries_view(r@) == self@,
            names_distinct(self@),
    {
        proof {
            use_type_invariant(self);
        }
        self.0.as_slice()
    }

    /// The commit hooks of a sequence of hooks of the wire, or `None` where
    /// there is none.
    pub fn from_proto(hooks: &[RpbCommitHook]) -> (r: Option<Self>)
        ensures
            match r {
                Some(h) => hooks@.len() > 0 && h@ == hooks_from_proto(
                    hooks@.map_values(|h: RpbCommitHook| h@),
                ) && names_distinct(h@),
                None => hooks@.len() == 0,
            },
    {
        if hooks.len() == 0 {
            return None;
        }
        Some(Self::from_slice(hooks))
    }

    /// The commit hooks of a sequence of hooks of the wire, each put in in
    /// turn.
    pub fn from_slice(hooks: &[RpbCommitHook]) -> (r: Self)
        ensures
            r@ == hooks_from_proto(hooks@.map_values(|h: RpbCommitHook| h@)),
            names_distinct(r@),
    {
        let ghost hv = hooks@.map_values(|h: RpbCommitHook| h@);
        let mut entries: Vec<HookEntry> = Vec::new();
        let mut i: usize = 0;
        while i < hooks.len()
            invariant
                i <= hooks@.len(),
                hv == hooks@.map_values(|h: RpbCommitHook| h@),
                entries@.map_values(|e: HookEntry| hook_entry_view(e)) == hooks_from_proto(
                    hv.take(i as int),
                ),
                names_distinct(entries@.map_values(|e: HookEntry| hook_entry_view(e))),
            decreases hooks@.len() - i,
        {
            let h = &hooks[i];
            let name: Vec<u8> = match &h.name {
                Some(n) => copy_bytes(n.as_slice()),
                None => Vec::new(),
            };
            let (module, function): (Vec<u8>, Vec<u8>) = match &h.modfun {
                Some(mf) => (copy_bytes(mf.module.as_slice()), copy_bytes(mf.function.as_slice())),
                None => (Vec::new(), Vec::new()),
            };
            let ghost ev = entries@.map_values(|e: HookEntry| hook_entry_view(e));
            let ghost he = hook_entry(hv[i as int]);
            proof {
                assert(hv.take(i + 1).drop_last() =~= hv.take(i as int));
                assert(he == (name@, (module@, function@)));
                lemma_upsert_distinct(ev, he);
                lemma_find_name(ev, name@, 0);
            }
            match find_entry(&entries, name.as_slice()) {
                Some(j) => {
                    entries.set(j, (name, (module, function)));
                    proof {
                        assert(entries@.map_values(|e: HookEntry| hook_entry_view(e)) =~= ev.update(
                            j as int,
                            he,
                        ));
                    }
                },
                None => {
                    entries.push((name, (module, function)));
                    proof {
                        assert(entries@.map_values(|e: HookEntry| hook_entry_view(e)) =~= ev.push(
                            he,
                        ));
                    }
                },
            }
            i = i + 1;
        }
        proof {
            assert(hv.take(i as int) =~= hv);
        }
        CommitHooks(entries)
    }

    /// The hooks of the wire for these commit hooks, in order; reading them
    /// back gives these commit hooks.
    pub fn into_proto(self) -> (r: Vec<RpbCommitHook>)
        ensures
            r@.map_values(|h: RpbCommitHook| h@) == hooks_to_proto(self@),
            hooks_from_proto(hooks_to_proto(self@)) == self@,
    {
        proof {
            use_type_invariant(&self);
            lemma_hooks_roundtrip(self@);
        }
        let mut out: Vec<RpbCommitHook> = Vec::new();
        let mut i: usize = 0;
        while i < self.0.len()
            invariant
                i <= self.0@.len(),
                out@.map_values(|h: RpbCommitHook| h@) == hooks_to_proto(self@).take(i as int),
            decreases self.0@.len() - i,
        {
            let e = &self.0[i];
            let hook = RpbCommitHook {
                modfun: Some(
                    RpbModFun {
                        module: copy_bytes(e.1.0.as_slice()),
                        function: copy_bytes(e.1.1.as_slice()),
                    },
                ),
                name: Some(copy_bytes(e.0.as_slice())),
            };
            let ghost prev = out@.map_values(|h: RpbCommitHook| h@);
            out.push(hook);
            proof {
                assert(hooks_to_proto(self@).take(i + 1) =~= prev.push(hooks_to_proto(self@)[i as int]));
                assert(out@.map_values(|h: RpbCommitHook| h@) =~= prev.push(hook@));
            }
            i = i + 1;
        }
        proof {
            assert(hooks_to_proto(self@).take(i as int) =~= hooks_to_proto(self@));
        }
        out
    }
}

impl RpbModFun {
    /// A module and a function.
    pub fn from_pair<T: IntoBytes>(module: T, function: T) -> (r: RpbModFun)
        ensures
            r@ == (RpbModFunView { module: module.byte_view(), function: function.byte_view() }),
    {
        RpbModFun { module: module.into_bytes(), function: function.into_bytes() }
    }
}

/// The properties that can be set on a bucket, with the name of the
/// bucket.
#[derive(Clone, Debug)]
pub struct BucketProps(RpbBucketProps, Vec<u8>);

impl View for BucketProps {
    type V = (RpbBucketPropsView, Seq<u8>);

    closed spec fn view(&self) -> (RpbBucketPropsView, Seq<u8>) {
        (self.0@, self.1@)
    }
}

impl BucketProps {
    /// No property set, for the bucket `bucket_name`.
    pub fn new<T: IntoBytes>(bucket_name: T) -> (r: BucketProps)
        ensures
            r@ == (rpb_bucket_props_empty(), bucket_name.byte_view()),
    {
        BucketProps(RpbBucketProps::empty(), bucket_name.into_bytes())
    }

    /// The properties `props`, for the bucket `bucket_name`.
    pub fn new_with_props<T: IntoBytes>(bucket_name: T, props: RpbBucketProps) -> (r: BucketProps)
        ensures
            r@ == (props@, bucket_name.byte_view()),
    {
        BucketProps(props, bucket_name.into_bytes())
    }

    /// The name of the bucket.
    pub fn get_bucket(&self) -> (r: &[u8])
        ensures
            r@ == self@.1,
    {
        self.1.as_slice()
    }

    /// Sets the name of the bucket.
    pub fn set_bucket<T: IntoBytes>(&mut self, bucket: T)
        ensures
            final(self)@ == (old(self)@.0, bucket.byte_view()),
    {
        self.1 = bucket.into_bytes();
    }

    /// The "allow_mult" property.
    pub fn get_allow_mult(&self) -> (r: Option<bool>)
        ensures
            r == self@.0.allow_mult,
    {
        self.0.allow_mult
    }

    /// Sets the "allow_mult" property.
    pub fn set_allow_mult(&mut self, allow_mult: bool)
        ensures
            final(self)@ == (RpbBucketPropsView { allow_mult: Some(allow_mult), ..old(self)@.0 }, old(self)@.1),
    {
        self.0.allow_mult = Some(allow_mult);
    }

    /// The "backend" property.
    pub fn get_backend(&self) -> (r: Option<&[u8]>)
        ensures
            opt_slice_view(r) == self@.0.backend,
    {
        match &self.0.backend {
            Some(v) => Some(v.as_slice()),
            None => None,
        }
    }

    /// Sets the "backend" property.
    pub fn set_backend<T: IntoBytes>(&mut self, backend: T)
        ensures
            final(self)@ == (RpbBucketPropsView { backend: Some(backend.byte_view()), ..old(self)@.0 }, old(self)@.1),
    {
        self.0.backend = Some(backend.into_bytes());
    }

    /// The "basic_quorum" property.
    pub fn get_basic_quorum(&self) -> (r: Option<bool>)
        ensures
            r == self@.0.basic_quorum,
    {
        self.0.basic_quorum
    }

    /// Sets the "basic_quorum" property.
    pub fn set_basic_quorum(&mut self, basic_quorum: bool)
        ensures
            final(self)@ == (RpbBucketPropsView { basic_quorum: Some(basic_quorum), ..old(self)@.0 }, old(self)@.1),
    {
        self.0.basic_quorum = Some(basic_quorum);
    }

    /// The "big_vclock" property.
    pub fn get_big_vclock(&self) -> (r: Option<u32>)
        ensures
            r == self@.0.big_vclock,
    {
        self.0.big_vclock
    }

    /// Sets the "big_vclock" property.
    pub fn set_big_vclock(&mut self, big_vclock: u32)
        ensures
            final(self)@ == (RpbBucketPropsView { big_vclock: Some(big_vclock), ..old(self)@.0 }, old(self)@.1),
    {
        self.0.big_vclock = Some(big_vclock);
    }

    /// The "chash_keyfun" property: a module and a function.
    pub fn get_chash_keyfun(&self) -> (r: Option<(&[u8], &[u8])>)
        ensures
            opt_slice_pair_view(r) == match self@.0.chash_keyfun {
                Some(mf) => Some((mf.module, mf.function)),
                None => None,
            },
    {
        match &self.0.chash_keyfun {
            Some(mf) => Some((mf.module.as_slice(), mf.function.as_slice())),
            None => None,
        }
    }

    /// Sets the "chash_keyfun" property to a module and a function.
    pub fn set_chash_keyfun<T: IntoBytes>(&mut self, module: T, function: T)
        ensures
            final(self)@ == (RpbBucketPropsView { chash_keyfun: Some(RpbModFunView { module: module.byte_view(), function: function.byte_view() }), ..old(self)@.0 }, old(self)@.1),
    {
        self.0.chash_keyfun = Some(RpbModFun::from_pair(module, function));
    }

    /// The "consistent" property.
    pub fn get_consistent(&self) -> (r: Option<bool>)
        ensures
            r == self@.0.consistent,
    {
        self.0.consistent
    }

    /// Sets the "consistent" property.
    pub fn set_consistent(&mut self, consistent: bool)
        ensures
            final(self)@ == (RpbBucketPropsView { consistent: Some(consistent), ..old(self)@.0 }, old(self)@.1),
    {
        self.0.consistent = Some(consistent);
    }

    /// The "datatype" property.
    pub fn get_datatype(&self) -> (r: Option<&[u8]>)
        ensures
            opt_slice_view(r) == self@.0.datatype,
    {
        match &self.0.datatype {
            Some(v) => Some(v.as_slice()),
            None => None,
        }
    }

    /// Sets the "datatype" property.
    pub fn set_datatype<T: IntoBytes>(&mut self, datatype: T)
        ensures
            final(self)@ == (RpbBucketPropsView { datatype: Some(datatype.byte_view()), ..old(self)@.0 }, old(self)@.1),
    {
        self.0.datatype = Some(datatype.into_bytes());
    }

    /// The "dw" property.
    pub fn get_dw(&self) -> (r: Option<u32>)
        ensures
            r == self@.0.dw,
    {
        self.0.dw
    }

    /// Sets the "dw" property.
    pub fn set_dw(&mut self, dw: u32)
        ensures
            final(self)@ == (RpbBucketPropsView { dw: Some(dw), ..old(self)@.0 }, old(self)@.1),
    {
        self.0.dw = Some(dw);
    }

    /// The "has_postcommit" property.
    pub fn get_has_postcommit(&self) -> (r: Option<bool>)
        ensures
            r == self@.0.has_postcommit,
    {
        self.0.has_postcommit
    }

    /// Sets the "has_postcommit" property.
    pub fn set_has_postcommit(&mut self, has_postcommit: bool)
        ensures
            final(self)@ == (RpbBucketPropsView { has_postcommit: Some(has_postcommit), ..old(self)@.0 }, old(self)@.1),
    {
        self.0.has_postcommit = Some(has_postcommit);
    }

    /// The "has_precommit" property.
    pub fn get_has_precommit(&self) -> (r: Option<bool>)
        ensures
            r == self@.0.has_precommit,
    {
        self.0.has_precommit
    }

    /// Sets the "has_precommit" property.
    pub fn set_has_precommit(&mut self, has_precommit: bool)
        ensures
            final(self)@ == (RpbBucketPropsView { has_precommit: Some(has_precommit), ..old(self)@.0 }, old(self)@.1),
    {
        self.0.has_precommit = Some(has_precommit);
    }

    /// The "hll_precision" property.
    pub fn get_hll_precision(&self) -> (r: Option<u32>)
        ensures
            r == self@.0.hll_precision,
    {
        self.0.hll_precision
    }

    /// Sets the "hll_precision" property.
    pub fn set_hll_precision(&mut self, hll_precision: u32)
        ensures
            final(self)@ == (RpbBucketPropsView { hll_precision: Some(hll_precision), ..old(self)@.0 }, old(self)@.1),
    {
        self.0.hll_precision = Some(hll_precision);
    }

    /// The "last_write_wins" property.
    pub fn get_last_write_wins(&self) -> (r: Option<bool>)
        ensures
            r == self@.0.last_write_wins,
    {
        self.0.last_write_wins
    }

    /// Sets the "last_write_wins" property.
    pub fn set_last_write_wins(&mut self, last_write_wins: bool)
        ensures
            final(self)@ == (RpbBucketPropsView { last_write_wins: Some(last_write_wins), ..old(self)@.0 }, old(self)@.1),
    {
        self.0.last_write_wins = Some(last_write_wins);
    }

    /// The "linkfun" property: a module and a function.
    pub fn get_linkfun(&self) -> (r: Option<(&[u8], &[u8])>)
        ensures
            opt_slice_pair_view(r) == match self@.0.linkfun {
                Some(mf) => Some((mf.module, mf.function)),
                None => None,
            },
    {
        match &self.0.linkfun {
            Some(mf) => Some((mf.module.as_slice(), mf.function.as_slice())),
            None => None,
        }
    }

    /// Sets the "linkfun" property to a module and a function.
    pub fn set_linkfun<T: IntoBytes>(&mut self, module: T, function: T)
        ensures
            final(self)@ == (RpbBucketPropsView { linkfun: Some(RpbModFunView { module: module.byte_view(), function: function.byte_view() }), ..old(self)@.0 }, old(self)@.1),
    {
        self.0.linkfun = Some(RpbModFun::from_pair(module, function));
    }

    /// The "notfound_ok" property.
    pub fn get_notfound_ok(&self) -> (r: Option<bool>)
        ensures
            r == self@.0.notfound_ok,
    {
        self.0.notfound_ok
    }

    /// Sets the "notfound_ok" property.
    pub fn set_notfound_ok(&mut self, notfound_ok: bool)
        ensures
            final(self)@ == (RpbBucketPropsView { notfound_ok: Some(notfound_ok), ..old(self)@.0 }, old(self)@.1),
    {
        self.0.notfound_ok = Some(notfound_ok);
    }

    /// The "n_val" property.
    pub fn get_n_val(&self) -> (r: Option<u32>)
        ensures
            r == self@.0.n_val,
    {
        self.0.n_val
    }

    /// Sets the "n_val" property.
    pub fn set_n_val(&mut self, n_val: u32)
        ensures
            final(self)@ == (RpbBucketPropsView { n_val: Some(n_val), ..old(self)@.0 }, old(self)@.1),
    {
        self.0.n_val = Some(n_val);
    }

    /// The "old_vclock" property.
    pub fn get_old_vclock(&self) -> (r: Option<u32>)
        ensures
            r == self@.0.old_vclock,
    {
        self.0.old_vclock
    }

    /// Sets the "old_vclock" property.
    pub fn set_old_vclock(&mut self, old_vclock: u32)
        ensures
            final(self)@ == (RpbBucketPropsView { old_vclock: Some(old_vclock), ..old(self)@.0 }, old(self)@.1),
    {
        self.0.old_vclock = Some(old_vclock);
    }

    /// The "postcommit" property: `None` where no hook is set.
    pub fn get_postcommit(&self) -> (r: Option<CommitHooks>)
        ensures
            match r {
                Some(h) => self@.0.postcommit.len() > 0 && h@ == hooks_from_proto(self@.0.postcommit)
                    && names_distinct(h@),
                None => self@.0.postcommit.len() == 0,
            },
    {
        CommitHooks::from_proto(self.0.postcommit.as_slice())
    }

    /// Sets the "postcommit" property: one hook per entry, in order. Reading
    /// the property back gives these hooks.
    pub fn set_postcommit(&mut self, postcommit: CommitHooks)
        ensures
            final(self)@ == (RpbBucketPropsView { postcommit: hooks_to_proto(postcommit@), ..old(self)@.0 }, old(self)@.1),
            hooks_from_proto(hooks_to_proto(postcommit@)) == postcommit@,
    {
        self.0.postcommit = postcommit.into_proto();
    }

    /// The "precommit" property: `None` where no hook is set.
    pub fn get_precommit(&self) -> (r: Option<CommitHooks>)
        ensures
            match r {
                Some(h) => self@.0.precommit.len() > 0 && h@ == hooks_from_proto(self@.0.precommit)
                    && names_distinct(h@),
                None => self@.0.precommit.len() == 0,
            },
    {
        CommitHooks::from_proto(self.0.precommit.as_slice())
    }

    /// Sets the "precommit" property: one hook per entry, in order. Reading
    /// the property back gives these hooks.
    pub fn set_precommit(&mut self, precommit: CommitHooks)
        ensures
            final(self)@ == (RpbBucketPropsView { precommit: hooks_to_proto(precommit@), ..old(self)@.0 }, old(self)@.1),
            hooks_from_proto(hooks_to_proto(precommit@)) == precommit@,
    {
        self.0.precommit = precommit.into_proto();
    }

    /// The "pr" property.
    pub fn get_pr(&self) -> (r: Option<u32>)
        ensures
            r == self@.0.pr,
    {
        self.0.pr
    }

    /// Sets the "pr" property.
    pub fn set_pr(&mut self, pr: u32)
        ensures
            final(self)@ == (RpbBucketPropsView { pr: Some(pr), ..old(self)@.0 }, old(self)@.1),
    {
        self.0.pr = Some(pr);
    }

    /// The "pw" property.
    pub fn get_pw(&self) -> (r: Option<u32>)
        ensures
            r == self@.0.pw,
    {
        self.0.pw
    }

    /// Sets the "pw" property.
    pub fn set_pw(&mut self, pw: u32)
        ensures
            final(self)@ == (RpbBucketPropsView { pw: Some(pw), ..old(self)@.0 }, old(self)@.1),
    {
        self.0.pw = Some(pw);
    }

    /// The "r" property.
    pub fn get_r(&self) -> (r: Option<u32>)
        ensures
            r == self@.0.r,
    {
        self.0.r
    }

    /// Sets the "r" property.
    pub fn set_r(&mut self, r: u32)
        ensures
            final(self)@ == (RpbBucketPropsView { r: Some(r), ..old(self)@.0 }, old(self)@.1),
    {
        self.0.r = Some(r);
    }

    /// The "rw" property.
    pub fn get_rw(&self) -> (r: Option<u32>)
        ensures
            r == self@.0.rw,
    {
        self.0.rw
    }

    /// Sets the "rw" property.
    pub fn set_rw(&mut self, rw: u32)
        ensures
            final(self)@ == (RpbBucketPropsView { rw: Some(rw), ..old(self)@.0 }, old(self)@.1),
    {
        self.0.rw = Some(rw);
    }

    /// The "search_index" property.
    pub fn get_search_index(&self) -> (r: Option<&[u8]>)
        ensures
            opt_slice_view(r) == self@.0.search_index,
    {
        match &self.0.search_index {
            Some(v) => Some(v.as_slice()),
            None => None,
        }
    }

    /// Sets the "search_index" property.
    pub fn set_search_index<T: IntoBytes>(&mut self, search_index: T)
        ensures
            final(self)@ == (RpbBucketPropsView { search_index: Some(search_index.byte_view()), ..old(self)@.0 }, old(self)@.1),
    {
        self.0.search_index = Some(search_index.into_bytes());
    }

    /// The "search" property.
    pub fn get_search(&self) -> (r: Option<bool>)
        ensures
            r == self@.0.search,
    {
        self.0.search
    }

    /// Sets the "search" property.
    pub fn set_search(&mut self, search: bool)
        ensures
            final(self)@ == (RpbBucketPropsView { search: Some(search), ..old(self)@.0 }, old(self)@.1),
    {
        self.0.search = Some(search);
    }

    /// The "small_vclock" property.
    pub fn get_small_vclock(&self) -> (r: Option<u32>)
        ensures
            r == self@.0.small_vclock,
    {
        self.0.small_vclock
    }

    /// Sets the "small_vclock" property.
    pub fn set_small_vclock(&mut self, small_vclock: u32)
        ensures
            final(self)@ == (RpbBucketPropsView { small_vclock: Some(small_vclock), ..old(self)@.0 }, old(self)@.1),
    {
        self.0.small_vclock = Some(small_vclock);
    }

    /// The "write_once" property.
    pub fn get_write_once(&self) -> (r: Option<bool>)
        ensures
            r == self@.0.write_once,
    {
        self.0.write_once
    }

    /// Sets the "write_once" property.
    pub fn set_write_once(&mut self, write_once: bool)
        ensures
            final(self)@ == (RpbBucketPropsView { write_once: Some(write_once), ..old(self)@.0 }, old(self)@.1),
    {
        self.0.write_once = Some(write_once);
    }

    /// The "w" property.
    pub fn get_w(&self) -> (r: Option<u32>)
        ensures
            r == self@.0.w,
    {
        self.0.w
    }

    /// Sets the "w" property.
    pub fn set_w(&mut self, w: u32)
        ensures
            final(self)@ == (RpbBucketPropsView { w: Some(w), ..old(self)@.0 }, old(self)@.1),
    {
        self.0.w = Some(w);
    }

    /// The "young_vclock" property.
    pub fn get_young_vclock(&self) -> (r: Option<u32>)
        ensures
            r == self@.0.young_vclock,
    {
        self.0.young_vclock
    }

    /// Sets the "young_vclock" property.
    pub fn set_young_vclock(&mut self, young_vclock: u32)
        ensures
            final(self)@ == (RpbBucketPropsView { young_vclock: Some(young_vclock), ..old(self)@.0 }, old(self)@.1),
    {
        self.0.young_vclock = Some(young_vclock);
    }

    /// The bytes of the request that sets these properties.
    pub fn serialize(self) -> (r: Result<Vec<u8>, RiakErr>)
        ensures
            r matches Ok(b) && b@ == rpb_set_bucket_req_bytes(RpbSetBucketReqView { bucket: self@.1, props: self@.0, bucket_type: None }),
    {
        let req = RpbSetBucketReq { bucket: self.1, props: self.0, bucket_type: None };
        Ok(req.encode_to_vec())
    }
}

/// The properties that can be set on a bucket type, with the name of the
/// bucket type.
#[derive(Clone, Debug)]
pub struct BucketTypeProps(RpbBucketProps, Vec<u8>);

impl View for BucketTypeProps {
    type V = (RpbBucketPropsView, Seq<u8>);

    closed spec fn view(&self) -> (RpbBucketPropsView, Seq<u8>) {
        (self.0@, self.1@)
    }
}

impl BucketTypeProps {
    /// No property set, for the bucket type `bucket_type_name`.
    pub fn new<T: IntoBytes>(bucket_type_name: T) -> (r: BucketTypeProps)
        ensures
            r@ == (rpb_bucket_props_empty(), bucket_type_name.byte_view()),
    {
        BucketTypeProps(RpbBucketProps::empty(), bucket_type_name.into_bytes())
    }

    /// The properties `props`, for the bucket type `bucket_type_name`.
    pub fn new_with_props<T: IntoBytes>(bucket_type_name: T, props: RpbBucketProps) -> (r: BucketTypeProps)
        ensures
            r@ == (props@, bucket_type_name.byte_view()),
    {
        BucketTypeProps(props, bucket_type_name.into_bytes())
    }

    /// The name of the bucket type.
    pub fn get_bucket(&self) -> (r: &[u8])
        ensures
            r@ == self@.1,
    {
        self.1.as_slice()
    }

    /// Sets the name of the bucket type.
    pub fn set_bucket<T: IntoBytes>(&mut self, bucket: T)
        ensures
            final(self)@ == (old(self)@.0, bucket.byte_view()),
    {
        self.1 = bucket.into_bytes();
    }

    /// The "allow_mult" property.
    pub fn get_allow_mult(&self) -> (r: Option<bool>)
        ensures
            r == self@.0.allow_mult,
    {
        self.0.allow_mult
    }

    /// Sets the "allow_mult" property.
    pub fn set_allow_mult(&mut self, allow_mult: bool)
        ensures
            final(self)@ == (RpbBucketPropsView { allow_mult: Some(allow_mult), ..old(self)@.0 }, old(self)@.1),
    {
        self.0.allow_mult = Some(allow_mult);
    }

    /// The "backend" property.
    pub fn get_backend(&self) -> (r: Option<&[u8]>)
        ensures
            opt_slice_view(r) == self@.0.backend,
    {
        match &self.0.backend {
            Some(v) => Some(v.as_slice()),
            None => None,
        }
    }

    /// Sets the "backend" property.
    pub fn set_backend<T: IntoBytes>(&mut self, backend: T)
        ensures
            final(self)@ == (RpbBucketPropsView { backend: Some(backend.byte_view()), ..old(self)@.0 }, old(self)@.1),
    {
        self.0.backend = Some(backend.into_bytes());
    }

    /// The "basic_quorum" property.
    pub fn get_basic_quorum(&self) -> (r: Option<bool>)
        ensures
            r == self@.0.basic_quorum,
    {
        self.0.basic_quorum
    }

    /// Sets the "basic_quorum" property.
    pub fn set_basic_quorum(&mut self, basic_quorum: bool)
        ensures
            final(self)@ == (RpbBucketPropsView { basic_quorum: Some(basic_quorum), ..old(self)@.0 }, old(self)@.1),
    {
        self.0.basic_quorum = Some(basic_quorum);
    }

    /// The "big_vclock" property.
    pub fn get_big_vclock(&self) -> (r: Option<u32>)
        ensures
            r == self@.0.big_vclock,
    {
        self.0.big_vclock
    }

    /// Sets the "big_vclock" property.
    pub fn set_big_vclock(&mut self, big_vclock: u32)
        ensures
            final(self)@ == (RpbBucketPropsView { big_vclock: Some(big_vclock), ..old(self)@.0 }, old(self)@.1),
    {
        self.0.big_vclock = Some(big_vclock);
    }

    /// The "chash_keyfun" property: a module and a function.
    pub fn get_chash_keyfun(&self) -> (r: Option<(&[u8], &[u8])>)
        ensures
            opt_slice_pair_view(r) == match self@.0.chash_keyfun {
                Some(mf) => Some((mf.module, mf.function)),
                None => None,
            },
    {
        match &self.0.chash_keyfun {
            Some(mf) => Some((mf.module.as_slice(), mf.function.as_slice())),
            None => None,
        }
    }

    /// Sets the "chash_keyfun" property to a module and a function.
    pub fn set_chash_keyfun<T: IntoBytes>(&mut self, module: T, function: T)
        ensures
            final(self)@ == (RpbBucketPropsView { chash_keyfun: Some(RpbModFunView { module: module.byte_view(), function: function.byte_view() }), ..old(self)@.0 }, old(self)@.1),
    {
        self.0.chash_keyfun = Some(RpbModFun::from_pair(module, function));
    }

    /// The "consistent" property.
    pub fn get_consistent(&self) -> (r: Option<bool>)
        ensures
            r == self@.0.consistent,
    {
        self.0.consistent
    }

    /// Sets the "consistent" property.
    pub fn set_consistent(&mut self, consistent: bool)
        ensures
            final(self)@ == (RpbBucketPropsView { consistent: Some(consistent), ..old(self)@.0 }, old(self)@.1),
    {
        self.0.consistent = Some(consistent);
    }

    /// The "datatype" property.
    pub fn get_datatype(&self) -> (r: Option<&[u8]>)
        ensures
            opt_slice_view(r) == self@.0.datatype,
    {
        match &self.0.datatype {
            Some(v) => Some(v.as_slice()),
            None => None,
        }
    }

    /// Sets the "datatype" property.
    pub fn set_datatype<T: IntoBytes>(&mut self, datatype: T)
        ensures
            final(self)@ == (RpbBucketPropsView { datatype: Some(datatype.byte_view()), ..old(self)@.0 }, old(self)@.1),
    {
        self.0.datatype = Some(datatype.into_bytes());
    }

    /// The "dw" property.
    pub fn get_dw(&self) -> (r: Option<u32>)
        ensures
            r == self@.0.dw,
    {
        self.0.dw
    }

    /// Sets the "dw" property.
    pub fn set_dw(&mut self, dw: u32)
        ensures
            final(self)@ == (RpbBucketPropsView { dw: Some(dw), ..old(self)@.0 }, old(self)@.1),
    {
        self.0.dw = Some(dw);
    }

    /// The "has_postcommit" property.
    pub fn get_has_postcommit(&self) -> (r: Option<bool>)
        ensures
            r == self@.0.has_postcommit,
    {
        self.0.has_postcommit
    }

    /// Sets the "has_postcommit" property.
    pub fn set_has_postcommit(&mut self, has_postcommit: bool)
        ensures
            final(self)@ == (RpbBucketPropsView { has_postcommit: Some(has_postcommit), ..old(self)@.0 }, old(self)@.1),
    {
        self.0.has_postcommit = Some(has_postcommit);
    }

    /// The "has_precommit" property.
    pub fn get_has_precommit(&self) -> (r: Option<bool>)
        ensures
            r == self@.0.has_precommit,
    {
        self.0.has_precommit
    }

    /// Sets the "has_precommit" property.
    pub fn set_has_precommit(&mut self, has_precommit: bool)
        ensures
            final(self)@ == (RpbBucketPropsView { has_precommit: Some(has_precommit), ..old(self)@.0 }, old(self)@.1),
    {
        self.0.has_precommit = Some(has_precommit);
    }

    /// The "hll_precision" property.
    pub fn get_hll_precision(&self) -> (r: Option<u32>)
        ensures
            r == self@.0.hll_precision,
    {
        self.0.hll_precision
    }

    /// Sets the "hll_precision" property.
    pub fn set_hll_precision(&mut self, hll_precision: u32)
        ensures
            final(self)@ == (RpbBucketPropsView { hll_precision: Some(hll_precision), ..old(self)@.0 }, old(self)@.1),
    {
        self.0.hll_precision = Some(hll_precision);
    }

    /// The "last_write_wins" property.
    pub fn get_last_write_wins(&self) -> (r: Option<bool>)
        ensures
            r == self@.0.last_write_wins,
    {
        self.0.last_write_wins
    }

    /// Sets the "last_write_wins" property.
    pub fn set_last_write_wins(&mut self, last_write_wins: bool)
        ensures
            final(self)@ == (RpbBucketPropsView { last_write_wins: Some(last_write_wins), ..old(self)@.0 }, old(self)@.1),
    {
        self.0.last_write_wins = Some(last_write_wins);
    }

    /// The "linkfun" property: a module and a function.
    pub fn get_linkfun(&self) -> (r: Option<(&[u8], &[u8])>)
        ensures
            opt_slice_pair_view(r) == match self@.0.linkfun {
                Some(mf) => Some((mf.module, mf.function)),
                None => None,
            },
    {
        match &self.0.linkfun {
            Some(mf) => Some((mf.module.as_slice(), mf.function.as_slice())),
            None => None,
        }
    }

    /// Sets the "linkfun" property to a module and a function.
    pub fn set_linkfun<T: IntoBytes>(&mut self, module: T, function: T)
        ensures
            final(self)@ == (RpbBucketPropsView { linkfun: Some(RpbModFunView { module: module.byte_view(), function: function.byte_view() }), ..old(self)@.0 }, old(self)@.1),
    {
        self.0.linkfun = Some(RpbModFun::from_pair(module, function));
    }

    /// The "notfound_ok" property.
    pub fn get_notfound_ok(&self) -> (r: Option<bool>)
        ensures
            r == self@.0.notfound_ok,
    {
        self.0.notfound_ok
    }

    /// Sets the "notfound_ok" property.
    pub fn set_notfound_ok(&mut self, notfound_ok: bool)
        ensures
            final(self)@ == (RpbBucketPropsView { notfound_ok: Some(notfound_ok), ..old(self)@.0 }, old(self)@.1),
    {
        self.0.notfound_ok = Some(notfound_ok);
    }

    /// The "n_val" property.
    pub fn get_n_val(&self) -> (r: Option<u32>)
        ensures
            r == self@.0.n_val,
    {
        self.0.n_val
    }

    /// Sets the "n_val" property.
    pub fn set_n_val(&mut self, n_val: u32)
        ensures
            final(self)@ == (RpbBucketPropsView { n_val: Some(n_val), ..old(self)@.0 }, old(self)@.1),
    {
        self.0.n_val = Some(n_val);
    }

    /// The "old_vclock" property.
    pub fn get_old_vclock(&self) -> (r: Option<u32>)
        ensures
            r == self@.0.old_vclock,
    {
        self.0.old_vclock
    }

    /// Sets the "old_vclock" property.
    pub fn set_old_vclock(&mut self, old_vclock: u32)
        ensures
            final(self)@ == (RpbBucketPropsView { old_vclock: Some(old_vclock), ..old(self)@.0 }, old(self)@.1),
    {
        self.0.old_vclock = Some(old_vclock);
    }

    /// The "postcommit" property: `None` where no hook is set.
    pub fn get_postcommit(&self) -> (r: Option<CommitHooks>)
        ensures
            match r {
                Some(h) => self@.0.postcommit.len() > 0 && h@ == hooks_from_proto(self@.0.postcommit)
                    && names_distinct(h@),
                None => self@.0.postcommit.len() == 0,
            },
    {
        CommitHooks::from_proto(self.0.postcommit.as_slice())
    }

    /// Sets the "postcommit" property: one hook per entry, in order. Reading
    /// the property back gives these hooks.
    pub fn set_postcommit(&mut self, postcommit: CommitHooks)
        ensures
            final(self)@ == (RpbBucketPropsView { postcommit: hooks_to_proto(postcommit@), ..old(self)@.0 }, old(self)@.1),
            hooks_from_proto(hooks_to_proto(postcommit@)) == postcommit@,
    {
        self.0.postcommit = postcommit.into_proto();
    }

    /// The "precommit" property: `None` where no hook is set.
    pub fn get_precommit(&self) -> (r: Option<CommitHooks>)
        ensures
            match r {
                Some(h) => self@.0.precommit.len() > 0 && h@ == hooks_from_proto(self@.0.precommit)
                    && names_distinct(h@),
                None => self@.0.precommit.len() == 0,
            },
    {
        CommitHooks::from_proto(self.0.precommit.as_slice())
    }

    /// Sets the "precommit" property: one hook per entry, in order. Reading
    /// the property back gives these hooks.
    pub fn set_precommit(&mut self, precommit: CommitHooks)
        ensures
            final(self)@ == (RpbBucketPropsView { precommit: hooks_to_proto(precommit@), ..old(self)@.0 }, old(self)@.1),
            hooks_from_proto(hooks_to_proto(precommit@)) == precommit@,
    {
        self.0.precommit = precommit.into_proto();
    }

    /// The "pr" property.
    pub fn get_pr(&self) -> (r: Option<u32>)
        ensures
            r == self@.0.pr,
    {
        self.0.pr
    }

    /// Sets the "pr" property.
    pub fn set_pr(&mut self, pr: u32)
        ensures
            final(self)@ == (RpbBucketPropsView { pr: Some(pr), ..old(self)@.0 }, old(self)@.1),
    {
        self.0.pr = Some(pr);
    }

    /// The "pw" property.
    pub fn get_pw(&self) -> (r: Option<u32>)
        ensures
            r == self@.0.pw,
    {
        self.0.pw
    }

    /// Sets the "pw" property.
    pub fn set_pw(&mut self, pw: u32)
        ensures
            final(self)@ == (RpbBucketPropsView { pw: Some(pw), ..old(self)@.0 }, old(self)@.1),
    {
        self.0.pw = Some(pw);
    }

    /// The "r" property.
    pub fn get_r(&self) -> (r: Option<u32>)
        ensures
            r == self@.0.r,
    {
        self.0.r
    }

    /// Sets the "r" property.
    pub fn set_r(&mut self, r: u32)
        ensures
            final(self)@ == (RpbBucketPropsView { r: Some(r), ..old(self)@.0 }, old(self)@.1),
    {
        self.0.r = Some(r);
    }

    /// The "rw" property.
    pub fn get_rw(&self) -> (r: Option<u32>)
        ensures
            r == self@.0.rw,
    {
        self.0.rw
    }

    /// Sets the "rw" property.
    pub fn set_rw(&mut self, rw: u32)
        ensures
            final(self)@ == (RpbBucketPropsView { rw: Some(rw), ..old(self)@.0 }, old(self)@.1),
    {
        self.0.rw = Some(rw);
    }

    /// The "search_index" property.
    pub fn get_search_index(&self) -> (r: Option<&[u8]>)
        ensures
            opt_slice_view(r) == self@.0.search_index,
    {
        match &self.0.search_index {
            Some(v) => Some(v.as_slice()),
            None => None,
        }
    }

    /// Sets the "search_index" property.
    pub fn set_search_index<T: IntoBytes>(&mut self, search_index: T)
        ensures
            final(self)@ == (RpbBucketPropsView { search_index: Some(search_index.byte_view()), ..old(self)@.0 }, old(self)@.1),
    {
        self.0.search_index = Some(search_index.into_bytes());
    }

    /// The "search" property.
    pub fn get_search(&self) -> (r: Option<bool>)
        ensures
            r == self@.0.search,
    {
        self.0.search
    }

    /// Sets the "search" property.
    pub fn set_search(&mut self, search: bool)
        ensures
            final(self)@ == (RpbBucketPropsView { search: Some(search), ..old(self)@.0 }, old(self)@.1),
    {
        self.0.search = Some(search);
    }

    /// The "small_vclock" property.
    pub fn get_small_vclock(&self) -> (r: Option<u32>)
        ensures
            r == self@.0.small_vclock,
    {
        self.0.small_vclock
    }

    /// Sets the "small_vclock" property.
    pub fn set_small_vclock(&mut self, small_vclock: u32)
        ensures
            final(self)@ == (RpbBucketPropsView { small_vclock: Some(small_vclock), ..old(self)@.0 }, old(self)@.1),
    {
        self.0.small_vclock = Some(small_vclock);
    }

    /// The "write_once" property.
    pub fn get_write_once(&self) -> (r: Option<bool>)
        ensures
            r == self@.0.write_once,
    {
        self.0.write_once
    }

    /// Sets the "write_once" property.
    pub fn set_write_once(&mut self, write_once: bool)
        ensures
            final(self)@ == (RpbBucketPropsView { write_once: Some(write_once), ..old(self)@.0 }, old(self)@.1),
    {
        self.0.write_once = Some(write_once);
    }

    /// The "w" property.
    pub fn get_w(&self) -> (r: Option<u32>)
        ensures
            r == self@.0.w,
    {
        self.0.w
    }

    /// Sets the "w" property.
    pub fn set_w(&mut self, w: u32)
        ensures
            final(self)@ == (RpbBucketPropsView { w: Some(w), ..old(self)@.0 }, old(self)@.1),
    {
        self.0.w = Some(w);
    }

    /// The "young_vclock" property.
    pub fn get_young_vclock(&self) -> (r: Option<u32>)
        ensures
            r == self@.0.young_vclock,
    {
        self.0.young_vclock
    }

    /// Sets the "young_vclock" property.
    pub fn set_young_vclock(&mut self, young_vclock: u32)
        ensures
            final(self)@ == (RpbBucketPropsView { young_vclock: Some(young_vclock), ..old(self)@.0 }, old(self)@.1),
    {
        self.0.young_vclock = Some(young_vclock);
    }

    /// The bytes of the request that sets these properties.
    pub fn serialize(self) -> (r: Result<Vec<u8>, RiakErr>)
        ensures
            r matches Ok(b) && b@ == rpb_set_bucket_type_req_bytes(RpbSetBucketTypeReqView { bucket_type: self@.1, props: self@.0 }),
    {
        let req = RpbSetBucketTypeReq { bucket_type: self.1, props: self.0 };
        Ok(req.encode_to_vec())
    }
}

} // verus!
