//! Runtime data model: addresses, messages, entities, promises, stack frames
//! and the vat (actor container) that owns them.
//!
//! Every runtime type has a mathematical view; contracts are stated over
//! those views.

use vstd::prelude::*;
use crate::ast::{Hvalue, HvalueV};

verus! {

/// The views of a sequence's elements, in order.
pub open spec fn views_of<T: View>(s: Seq<T>) -> Seq<T::V> {
    Seq::new(s.len(), |i: int| s[i]@)
}

pub proof fn lemma_views_push<T: View>(s: Seq<T>, x: T)
    ensures
        views_of(s.push(x)) == views_of(s).push(x@),
{
    assert(views_of(s.push(x)) =~= views_of(s).push(x@));
}

pub proof fn lemma_views_drop_last<T: View>(s: Seq<T>)
    requires
        s.len() > 0,
    ensures
        views_of(s.drop_last()) == views_of(s).drop_last(),
        views_of(s).last() == s.last()@,
{
    assert(views_of(s.drop_last()) =~= views_of(s).drop_last());
}

pub proof fn lemma_views_update<T: View>(s: Seq<T>, i: int, x: T)
    requires
        0 <= i < s.len(),
    ensures
        views_of(s.update(i, x)) == views_of(s).update(i, x@),
{
    assert(views_of(s.update(i, x)) =~= views_of(s).update(i, x@));
}

/// Removing an element and putting another back in its place is an update.
pub proof fn lemma_remove_insert_is_update<T>(s: Seq<T>, i: int, x: T)
    requires
        0 <= i < s.len(),
    ensures
        s.remove(i).insert(i, x) == s.update(i, x),
{
    assert(s.remove(i).insert(i, x) =~= s.update(i, x));
}

/// Globally unique, immutable handle of an entity: node, vat and entity id.
#[derive(Debug, Clone, Copy, PartialEq, Eq, Structural)]
pub struct EntityAddress {
    pub node_id: u32,
    pub vat_id: u32,
    pub entity_id: u32,
}

impl EntityAddress {
    pub fn new(node_id: u32, vat_id: u32, entity_id: u32) -> (r: EntityAddress)
        ensures
            r == (EntityAddress { node_id, vat_id, entity_id }),
    {
        EntityAddress { node_id, vat_id, entity_id }
    }
}

/// A name-to-value map, stored as an association list with unique keys.
/// It stands in for the string-keyed maps of entity data and frame locals;
/// its view is the finite map from names to value views.
#[derive(Debug)]
pub struct ValMap {
    pub entries: Vec<(String, Hvalue)>,
}

/// Keys are pairwise distinct.
pub open spec fn map_wf(s: Seq<(String, Hvalue)>) -> bool {
    forall|i: int, j: int| 0 <= i < j < s.len() ==> s[i].0@ != s[j].0@
}

/// The finite map an association list denotes (later entries shadow earlier
/// ones, though well-formed lists never repeat a key).
pub open spec fn entries_map(s: Seq<(String, Hvalue)>) -> Map<Seq<char>, HvalueV>
    decreases s.len(),
{
    if s.len() == 0 {
        Map::empty()
    } else {
        entries_map(s.drop_last()).insert(s.last().0@, s.last().1@)
    }
}

pub proof fn lemma_entries_map_domain(s: Seq<(String, Hvalue)>)
    ensures
        forall|k: Seq<char>| #[trigger] entries_map(s).contains_key(k) <==> exists|i: int|
            0 <= i < s.len() && s[i].0@ == k,
    decreases s.len(),
{
    if s.len() > 0 {
        lemma_entries_map_domain(s.drop_last());
        assert forall|k: Seq<char>| #[trigger] entries_map(s).contains_key(k) implies exists|
            i: int,
        | 0 <= i < s.len() && s[i].0@ == k by {
            if k == s.last().0@ {
                assert(s[s.len() - 1].0@ == k);
            } else {
                assert(entries_map(s.drop_last()).contains_key(k));
                let i = choose|i: int| 0 <= i < s.drop_last().len() && s.drop_last()[i].0@ == k;
                assert(s.drop_last()[i] == s[i]);
                assert(s[i].0@ == k);
            }
        }
        assert forall|k: Seq<char>| (exists|i: int| 0 <= i < s.len() && s[i].0@ == k) implies #[trigger] entries_map(
            s,
        ).contains_key(k) by {
            let i = choose|i: int| 0 <= i < s.len() && s[i].0@ == k;
            if i < s.len() - 1 {
                assert(s.drop_last()[i] == s[i]);
                assert(s.drop_last()[i].0@ == k);
                assert(entries_map(s.drop_last()).contains_key(k));
            }
        }
    }
}

pub proof fn lemma_entries_map_at(s: Seq<(String, Hvalue)>, i: int)
    requires
        map_wf(s),
        0 <= i < s.len(),
    ensures
        entries_map(s).contains_key(s[i].0@),
        entries_map(s)[s[i].0@] == s[i].1@,
    decreases s.len(),
{
    if i < s.len() - 1 {
        assert(map_wf(s.drop_last()));
        assert(s.drop_last()[i] == s[i]);
        lemma_entries_map_at(s.drop_last(), i);
        assert(s[i].0@ != s.last().0@);
    }
}

pub proof fn lemma_entries_map_update(s: Seq<(String, Hvalue)>, i: int, val: Hvalue)
    requires
        map_wf(s),
        0 <= i < s.len(),
    ensures
        map_wf(s.update(i, (s[i].0, val))),
        entries_map(s.update(i, (s[i].0, val))) == entries_map(s).insert(s[i].0@, val@),
    decreases s.len(),
{
    let t = s.update(i, (s[i].0, val));
    assert(map_wf(t));
    if i == s.len() - 1 {
        assert(t.drop_last() =~= s.drop_last());
        assert(entries_map(t) =~= entries_map(s).insert(s[i].0@, val@));
    } else {
        assert(t.drop_last() =~= s.drop_last().update(i, (s.drop_last()[i].0, val)));
        assert(map_wf(s.drop_last()));
        lemma_entries_map_update(s.drop_last(), i, val);
        assert(s[i].0@ != s.last().0@);
        assert(entries_map(t) =~= entries_map(s).insert(s[i].0@, val@));
    }
}

/// Two association lists with equal keys and view-equal values denote the
/// same map.
pub proof fn lemma_entries_map_congruent(s1: Seq<(String, Hvalue)>, s2: Seq<(String, Hvalue)>)
    requires
        s1.len() == s2.len(),
        forall|i: int| 0 <= i < s1.len() ==> s1[i].0@ == s2[i].0@ && s1[i].1@ == s2[i].1@,
    ensures
        entries_map(s1) == entries_map(s2),
        map_wf(s1) == map_wf(s2),
    decreases s1.len(),
{
    if s1.len() > 0 {
        lemma_entries_map_congruent(s1.drop_last(), s2.drop_last());
        assert(entries_map(s1) =~= entries_map(s2));
    }
    assert(map_wf(s1) == map_wf(s2));
}

impl View for ValMap {
    type V = Map<Seq<char>, HvalueV>;

    open spec fn view(&self) -> Map<Seq<char>, HvalueV> {
        entries_map(self.entries@)
    }
}

impl ValMap {
    pub open spec fn wf(self) -> bool {
        map_wf(self.entries@)
    }

    pub fn new() -> (r: ValMap)
        ensures
            r@ == Map::<Seq<char>, HvalueV>::empty(),
            r.wf(),
            r.entries@.len() == 0,
    {
        ValMap { entries: Vec::new() }
    }

    pub fn get(&self, name: &String) -> (r: Option<&Hvalue>)
        requires
            self.wf(),
        ensures
            match r {
                Option::Some(v) => self@.contains_key(name@) && v@ == self@[name@],
                Option::None => !self@.contains_key(name@),
            },
    {
        let n = self.entries.len();
        let mut i: usize = 0;
        while i < n
            invariant
                self.wf(),
                n == self.entries@.len(),
                0 <= i <= n,
                forall|j: int| 0 <= j < i ==> self.entries@[j].0@ != name@,
            decreases n - i,
        {
            if self.entries[i].0 == *name {
                proof {
                    lemma_entries_map_at(self.entries@, i as int);
                }
                return Option::Some(&self.entries[i].1);
            }
            i = i + 1;
        }
        proof {
            lemma_entries_map_domain(self.entries@);
        }
        Option::None
    }

    /// Binds `name` to `val`: overwrites the existing entry or appends one.
    pub fn set(&mut self, name: &String, val: Hvalue)
        requires
            old(self).wf(),
        ensures
            final(self).wf(),
            final(self)@ == old(self)@.insert(name@, val@),
            final(self).entries@.len() <= old(self).entries@.len() + 1,
    {
        let n = self.entries.len();
        let mut i: usize = 0;
        while i < n
            invariant
                self.wf(),
                self == old(self),
                n == self.entries@.len(),
                0 <= i <= n,
                forall|j: int| 0 <= j < i ==> self.entries@[j].0@ != name@,
            decreases n - i,
        {
            if self.entries[i].0 == *name {
                proof {
                    lemma_entries_map_update(self.entries@, i as int, val);
                }
                let key = self.entries[i].0.clone();
                self.entries[i] = (key, val);
                proof {
                    assert(self.entries@ =~= old(self).entries@.update(
                        i as int,
                        (old(self).entries@[i as int].0, val),
                    ));
                    assert(old(self).entries@[i as int].0@ == name@);
                    assert(final(self)@ =~= old(self)@.insert(name@, val@));
                }
                return ;
            }
            i = i + 1;
        }
        self.entries.push((name.clone(), val));
        proof {
            assert(self.entries@.drop_last() =~= old(self).entries@);
            lemma_entries_map_domain(old(self).entries@);
            assert(map_wf(self.entries@));
        }
    }

    /// An exact copy: same view, same well-formedness.
    pub fn duplicate(&self) -> (r: ValMap)
        ensures
            r@ == self@,
            r.wf() == self.wf(),
            r.entries@.len() == self.entries@.len(),
    {
        let n = self.entries.len();
        let mut out: Vec<(String, Hvalue)> = Vec::new();
        let mut i: usize = 0;
        while i < n
            invariant
                n == self.entries@.len(),
                0 <= i <= n,
                out@.len() == i,
                forall|j: int| 0 <= j < i ==> out@[j].0@ == self.entries@[j].0@ && out@[j].1@
                    == self.entries@[j].1@,
            decreases n - i,
        {
            let name = self.entries[i].0.clone();
            let val = self.entries[i].1.duplicate();
            out.push((name, val));
            i = i + 1;
        }
        let r = ValMap { entries: out };
        proof {
            lemma_entries_map_congruent(r.entries@, self.entries@);
        }
        r
    }
}

/// What a message carries: a request to run a function, or the response that
/// resolves a promise.
#[derive(Debug)]
pub enum MsgContents {
    Request { args: Vec<Hvalue>, function_id: u32, src_promise: Option<u32>, no_response: bool },
    Response { result: Hvalue, dst_promise: Option<u32> },
}

#[verifier::ext_equal]
pub ghost enum MsgContentsV {
    Request { args: Seq<HvalueV>, function_id: u32, src_promise: Option<u32>, no_response: bool },
    Response { result: HvalueV, dst_promise: Option<u32> },
}

impl View for MsgContents {
    type V = MsgContentsV;

    open spec fn view(&self) -> MsgContentsV {
        match self {
            MsgContents::Request { args, function_id, src_promise, no_response } => (
            MsgContentsV::Request {
                args: views_of(args@),
                function_id: *function_id,
                src_promise: *src_promise,
                no_response: *no_response,
            }),
            MsgContents::Response { result, dst_promise } => (MsgContentsV::Response {
                result: result@,
                dst_promise: *dst_promise,
            }),
        }
    }
}

#[derive(Debug)]
pub struct Msg {
    pub src_address: EntityAddress,
    pub dst_address: EntityAddress,
    pub contents: MsgContents,
}

#[verifier::ext_equal]
pub ghost struct MsgV {
    pub src_address: EntityAddress,
    pub dst_address: EntityAddress,
    pub contents: MsgContentsV,
}

impl View for Msg {
    type V = MsgV;

    open spec fn view(&self) -> MsgV {
        MsgV {
            src_address: self.src_address,
            dst_address: self.dst_address,
            contents: self.contents@,
        }
    }
}

impl Msg {
    pub fn duplicate(&self) -> (r: Msg)
        ensures
            r@ == self@,
    {
        let contents = match &self.contents {
            MsgContents::Request { args, function_id, src_promise, no_response } => {
                let n = args.len();
                let mut out: Vec<Hvalue> = Vec::new();
                let mut i: usize = 0;
                while i < n
                    invariant
                        n == args@.len(),
                        0 <= i <= n,
                        out@.len() == i,
                        forall|j: int| 0 <= j < i ==> out@[j]@ == args@[j]@,
                    decreases n - i,
                {
                    out.push(args[i].duplicate());
                    i = i + 1;
                }
                proof {
                    assert(views_of(out@) =~= views_of(args@));
                }
                MsgContents::Request {
                    args: out,
                    function_id: *function_id,
                    src_promise: *src_promise,
                    no_response: *no_response,
                }
            },
            MsgContents::Response { result, dst_promise } => MsgContents::Response {
                result: result.duplicate(),
                dst_promise: *dst_promise,
            },
        };
        Msg { src_address: self.src_address, dst_address: self.dst_address, contents }
    }
}

/// An addressable runtime instance of a compiled entity type. Host-backed
/// entities carry a native-object discriminant the host resolves; the runtime
/// itself never looks inside it.
#[derive(Debug)]
pub struct Entity {
    pub address: EntityAddress,
    pub data: ValMap,
    pub code: u32,
    pub entity_type: u32,
    pub bound_entity: Option<u64>,
}

#[verifier::ext_equal]
pub ghost struct EntityV {
    pub address: EntityAddress,
    pub data: Map<Seq<char>, HvalueV>,
    pub code: u32,
    pub entity_type: u32,
    pub bound_entity: Option<u64>,
}

impl View for Entity {
    type V = EntityV;

    open spec fn view(&self) -> EntityV {
        EntityV {
            address: self.address,
            data: self.data@,
            code: self.code,
            entity_type: self.entity_type,
            bound_entity: self.bound_entity,
        }
    }
}

impl Entity {
    pub open spec fn wf(self) -> bool {
        self.data.wf()
    }
}

/// One call-stack entry: whose entity "self" is, the frame's locals, and
/// where to resume on return; no return address marks the outermost frame.
#[derive(Debug)]
pub struct StackFrame {
    pub entity_id: u32,
    pub locals: ValMap,
    pub return_address: Option<usize>,
}

#[verifier::ext_equal]
pub ghost struct StackFrameV {
    pub entity_id: u32,
    pub locals: Map<Seq<char>, HvalueV>,
    pub return_address: Option<usize>,
}

impl View for StackFrame {
    type V = StackFrameV;

    open spec fn view(&self) -> StackFrameV {
        StackFrameV {
            entity_id: self.entity_id,
            locals: self.locals@,
            return_address: self.return_address,
        }
    }
}

impl StackFrame {
    pub open spec fn wf(self) -> bool {
        self.locals.wf()
    }

    pub fn duplicate(&self) -> (r: StackFrame)
        ensures
            r@ == self@,
            r.wf() == self.wf(),
    {
        StackFrame {
            entity_id: self.entity_id,
            locals: self.locals.duplicate(),
            return_address: self.return_address,
        }
    }
}

/// An exact copy of an operand stack.
pub fn duplicate_values(v: &Vec<Hvalue>) -> (r: Vec<Hvalue>)
    ensures
        views_of(r@) == views_of(v@),
{
    let n = v.len();
    let mut out: Vec<Hvalue> = Vec::new();
    let mut i: usize = 0;
    while i < n
        invariant
            n == v@.len(),
            0 <= i <= n,
            out@.len() == i,
            forall|j: int| 0 <= j < i ==> out@[j]@ == v@[j]@,
        decreases n - i,
    {
        out.push(v[i].duplicate());
        i = i + 1;
    }
    proof {
        assert(views_of(out@) =~= views_of(v@));
    }
    out
}

/// An exact copy of a call stack, frame for frame.
pub fn duplicate_frames(v: &Vec<StackFrame>) -> (r: Vec<StackFrame>)
    ensures
        views_of(r@) == views_of(v@),
        forall|j: int| 0 <= j < v@.len() ==> (#[trigger] r@[j]).wf() == v@[j].wf(),
        r@.len() == v@.len(),
    decreases v,
{
    let n = v.len();
    let mut out: Vec<StackFrame> = Vec::new();
    let mut i: usize = 0;
    while i < n
        invariant
            n == v@.len(),
            0 <= i <= n,
            out@.len() == i,
            forall|j: int| 0 <= j < i ==> (#[trigger] out@[j])@ == v@[j]@ && out@[j].wf()
                == v@[j].wf(),
        decreases n - i,
    {
        out.push(v[i].duplicate());
        i = i + 1;
    }
    proof {
        assert(views_of(out@) =~= views_of(v@));
    }
    out
}

/// A correlation token plus captured continuation, resumed when an
/// asynchronous response arrives.
#[derive(Debug)]
pub struct Promise {
    pub on_resolve: Vec<usize>,
    pub resolved: bool,
    pub returned_val: Option<Hvalue>,
    pub save_point: (Vec<Hvalue>, Vec<StackFrame>),
    pub var_names: Vec<String>,
    pub src_promise: Option<u32>,
    pub src_entity: Option<EntityAddress>,
}

#[verifier::ext_equal]
pub ghost struct PromiseV {
    pub on_resolve: Seq<usize>,
    pub resolved: bool,
    pub returned_val: Option<HvalueV>,
    pub save_point: (Seq<HvalueV>, Seq<StackFrameV>),
    pub var_names: Seq<Seq<char>>,
    pub src_promise: Option<u32>,
    pub src_entity: Option<EntityAddress>,
}

impl View for Promise {
    type V = PromiseV;

    open spec fn view(&self) -> PromiseV {
        PromiseV {
            on_resolve: self.on_resolve@,
            resolved: self.resolved,
            returned_val: match self.returned_val {
                Option::Some(v) => Option::Some(v@),
                Option::None => Option::None,
            },
            save_point: (views_of(self.save_point.0@), views_of(self.save_point.1@)),
            var_names: views_of(self.var_names@),
            src_promise: self.src_promise,
            src_entity: self.src_entity,
        }
    }
}

impl Promise {
    /// The frames parked in the promise's save point are well-formed.
    pub open spec fn wf(self) -> bool {
        forall|j: int| 0 <= j < self.save_point.1@.len() ==> (#[trigger] self.save_point.1@[j]).wf()
    }

    pub fn new(src_promise: Option<u32>, src_entity: Option<EntityAddress>) -> (r: Promise)
        ensures
            r.wf(),
            r@ == (PromiseV {
                on_resolve: Seq::<usize>::empty(),
                resolved: false,
                returned_val: Option::<HvalueV>::None,
                save_point: (Seq::<HvalueV>::empty(), Seq::<StackFrameV>::empty()),
                var_names: Seq::<Seq<char>>::empty(),
                src_promise,
                src_entity,
            }),
    {
        let r = Promise {
            resolved: false,
            returned_val: Option::None,
            on_resolve: Vec::new(),
            save_point: (Vec::new(), Vec::new()),
            var_names: Vec::new(),
            src_promise,
            src_entity,
        };
        proof {
            assert(views_of(r.save_point.0@) =~= Seq::<HvalueV>::empty());
            assert(views_of(r.save_point.1@) =~= Seq::<StackFrameV>::empty());
            assert(views_of(r.var_names@) =~= Seq::<Seq<char>>::empty());
        }
        r
    }
}

pub struct PleromaNode {}

/// An actor container: entities, mailboxes, one operand stack, one call
/// stack, the in-flight promise table (ids are indices, assigned densely)
/// and the compiled module it runs.
#[derive(Debug)]
pub struct Vat {
    pub inbox: Vec<Msg>,
    pub outbox: Vec<Msg>,
    pub entities: Vec<Entity>,
    pub vat_id: u32,
    pub op_stack: Vec<Hvalue>,
    pub call_stack: Vec<StackFrame>,
    pub promise_stack: Vec<Promise>,
    pub code: Vec<u8>,
}

#[verifier::ext_equal]
pub ghost struct VatV {
    pub inbox: Seq<MsgV>,
    pub outbox: Seq<MsgV>,
    pub entities: Seq<EntityV>,
    pub vat_id: u32,
    pub op_stack: Seq<HvalueV>,
    pub call_stack: Seq<StackFrameV>,
    pub promise_stack: Seq<PromiseV>,
    pub code: Seq<u8>,
}

impl View for Vat {
    type V = VatV;

    open spec fn view(&self) -> VatV {
        VatV {
            inbox: views_of(self.inbox@),
            outbox: views_of(self.outbox@),
            entities: views_of(self.entities@),
            vat_id: self.vat_id,
            op_stack: views_of(self.op_stack@),
            call_stack: views_of(self.call_stack@),
            promise_stack: views_of(self.promise_stack@),
            code: self.code@,
        }
    }
}

impl Vat {
    /// Entity ids are dense indices, frame locals and entity data are
    /// well-formed maps, and at most 256 promises are outstanding.
    pub open spec fn wf(self) -> bool {
        &&& forall|i: int| 0 <= i < self.entities@.len() ==> (#[trigger] self.entities@[i]).wf()
            && self.entities@[i].address.entity_id == i && self.entities@[i].address.vat_id
            == self.vat_id && self.entities@[i].address.node_id == 0
        &&& forall|i: int|
            0 <= i < self.call_stack@.len() ==> (#[trigger] self.call_stack@[i]).wf()
        &&& forall|i: int|
            0 <= i < self.promise_stack@.len() ==> (#[trigger] self.promise_stack@[i]).wf()
        &&& self.promise_stack@.len() <= 256
    }

    pub fn new(vat_id: u32, code: Vec<u8>) -> (r: Vat)
        ensures
            r@ == (VatV {
                inbox: Seq::<MsgV>::empty(),
                outbox: Seq::<MsgV>::empty(),
                entities: Seq::<EntityV>::empty(),
                vat_id,
                op_stack: Seq::<HvalueV>::empty(),
                call_stack: Seq::<StackFrameV>::empty(),
                promise_stack: Seq::<PromiseV>::empty(),
                code: code@,
            }),
            r.wf(),
    {
        let r = Vat {
            inbox: Vec::new(),
            outbox: Vec::new(),
            entities: Vec::new(),
            vat_id,
            op_stack: Vec::new(),
            call_stack: Vec::new(),
            promise_stack: Vec::new(),
            code,
        };
        proof {
            assert(views_of(r.inbox@) =~= Seq::<MsgV>::empty());
            assert(views_of(r.outbox@) =~= Seq::<MsgV>::empty());
            assert(views_of(r.entities@) =~= Seq::<EntityV>::empty());
            assert(views_of(r.op_stack@) =~= Seq::<HvalueV>::empty());
            assert(views_of(r.call_stack@) =~= Seq::<StackFrameV>::empty());
            assert(views_of(r.promise_stack@) =~= Seq::<PromiseV>::empty());
        }
        r
    }

    /// Reads the named local of the current (innermost) frame.
    pub fn load_local(&self, s: &String) -> (r: Hvalue)
        requires
            self.wf(),
            self@.call_stack.len() > 0,
            self@.call_stack.last().locals.contains_key(s@),
        ensures
            r@ == self@.call_stack.last().locals[s@],
    {
        let frame = &self.call_stack[self.call_stack.len() - 1];
        let v = frame.locals.get(s);
        match v {
            Option::Some(v) => v.duplicate(),
            Option::None => {
                proof {
                    assert(false);
                }
                Hvalue::HNone
            },
        }
    }

    /// Binds the named local of the current frame; everything else is kept.
    pub fn store_local(&mut self, s: &String, val: &Hvalue)
        requires
            old(self).wf(),
            old(self)@.call_stack.len() > 0,
        ensures
            final(self).wf(),
            final(self)@ == (VatV {
                call_stack: old(self)@.call_stack.update(
                    old(self)@.call_stack.len() - 1,
                    (StackFrameV {
                        locals: old(self)@.call_stack.last().locals.insert(s@, val@),
                        ..old(self)@.call_stack.last()
                    }),
                ),
                ..old(self)@
            }),
    {
        let last_ind = self.call_stack.len() - 1;
        let mut frame = match self.call_stack.pop() {
            Option::Some(f) => f,
            Option::None => {
                proof {
                    assert(false);
                }
                StackFrame { entity_id: 0, locals: ValMap::new(), return_address: Option::None }
            },
        };
        frame.locals.set(s, val.duplicate());
        self.call_stack.push(frame);
        proof {
            assert(views_of(self.call_stack@) =~= old(self)@.call_stack.update(
                old(self)@.call_stack.len() - 1,
                (StackFrameV {
                    locals: old(self)@.call_stack.last().locals.insert(s@, val@),
                    ..old(self)@.call_stack.last()
                }),
            ));
        }
    }

    /// Allocates the next entity id and installs a new entity whose data is
    /// `data` plus the reserved "self" binding to its own address.
    pub fn create_entity(
        &mut self,
        entity_type: u32,
        code: u32,
        data: &ValMap,
        bound_entity: Option<u64>,
    ) -> (r: EntityAddress)
        requires
            old(self).wf(),
            old(self)@.entities.len() < 0x1_0000_0000,
            data.wf(),
        ensures
            final(self).wf(),
            r == (EntityAddress {
                node_id: 0,
                vat_id: old(self)@.vat_id,
                entity_id: old(self)@.entities.len() as u32,
            }),
            final(self)@ == (VatV {
                entities: old(self)@.entities.push(
                    (EntityV {
                        address: r,
                        data: data@.insert("self"@, HvalueV::VAddr(r)),
                        code,
                        entity_type,
                        bound_entity,
                    }),
                ),
                ..old(self)@
            }),
    {
        let entity_id: u32 = self.entities.len() as u32;
        let address = EntityAddress { node_id: 0, vat_id: self.vat_id, entity_id };
        let mut ent_data = data.duplicate();
        let self_name: String = String::from_str("self");
        ent_data.set(&self_name, Hvalue::EntityAddress(address));
        let ent = Entity { address, data: ent_data, code, entity_type, bound_entity };
        self.entities.push(ent);
        proof {
            assert(views_of(self.entities@) =~= old(self)@.entities.push(
                (EntityV {
                    address,
                    data: data@.insert("self"@, HvalueV::VAddr(address)),
                    code,
                    entity_type,
                    bound_entity,
                }),
            ));
        }
        address
    }

    /// Installs a new entity with no host-native backing.
    pub fn create_entity_code(&mut self, entity_type: u32, code: u32, data: &ValMap) -> (r:
        EntityAddress)
        requires
            old(self).wf(),
            old(self)@.entities.len() < 0x1_0000_0000,
            data.wf(),
        ensures
            final(self).wf(),
            r == (EntityAddress {
                node_id: 0,
                vat_id: old(self)@.vat_id,
                entity_id: old(self)@.entities.len() as u32,
            }),
            final(self)@ == (VatV {
                entities: old(self)@.entities.push(
                    (EntityV {
                        address: r,
                        data: data@.insert("self"@, HvalueV::VAddr(r)),
                        code,
                        entity_type,
                        bound_entity: Option::<u64>::None,
                    }),
                ),
                ..old(self)@
            }),
    {
        self.create_entity(entity_type, code, data, Option::None)
    }

    /// Queues a bootstrap request for function 2 of entity 0 of vat `ent`.
    pub fn send_msg(&mut self, ent: u32)
        requires
            old(self).wf(),
        ensures
            final(self).wf(),
            final(self)@ == (VatV {
                outbox: old(self)@.outbox.push(
                    (MsgV {
                        src_address: EntityAddress { node_id: 0, vat_id: 0, entity_id: 0 },
                        dst_address: EntityAddress { node_id: 0, vat_id: ent, entity_id: 0 },
                        contents: MsgContentsV::Request {
                            function_id: 2,
                            args: Seq::<HvalueV>::empty(),
                            src_promise: Option::<u32>::None,
                            no_response: false,
                        },
                    }),
                ),
                ..old(self)@
            }),
    {
        let args: Vec<Hvalue> = Vec::new();
        proof {
            assert(views_of(args@) =~= Seq::<HvalueV>::empty());
        }
        let msg = Msg {
            src_address: EntityAddress::new(0, 0, 0),
            dst_address: EntityAddress::new(0, ent, 0),
            contents: MsgContents::Request {
                function_id: 2,
                args,
                src_promise: Option::None,
                no_response: false,
            },
        };
        self.outbox.push(msg);
        proof {
            assert(views_of(self.outbox@) =~= old(self)@.outbox.push(
                (MsgV {
                    src_address: EntityAddress { node_id: 0, vat_id: 0, entity_id: 0 },
                    dst_address: EntityAddress { node_id: 0, vat_id: ent, entity_id: 0 },
                    contents: MsgContentsV::Request {
                        function_id: 2,
                        args: Seq::<HvalueV>::empty(),
                        src_promise: Option::<u32>::None,
                        no_response: false,
                    },
                }),
            ));
        }
    }
}

} // verus!
