//! The working snapshot of a transaction and the operations applied to it.
//!
//! A snapshot maps each key that the transaction has seen to its list. The
//! operations of a transaction are applied to it in order: a read is
//! answered from it, an append extends it.
use crate::messages::{queries_view, Query, QueryValue, QueryValueView, QueryView};
use crate::table::Table;
use crate::text::same_text;
use vstd::prelude::*;

verus! {

/// What ends the node: the other side broke the protocol, or a counter ran
/// out.
#[derive(Clone, Copy, Debug, PartialEq, Eq, Structural)]
pub enum Fatal {
    /// An operation that is neither `r` nor `append`.
    WrongOperation,
    /// An `append` that carries no number.
    WrongAppendValue,
    /// A reply of a kind, or with an error code, that the request does not
    /// allow.
    UnexpectedReply,
    /// A stored value that is not of the expected shape.
    BadValue,
    /// No message id or storage id is left.
    Exhausted,
}

/// The name of the read operation.
pub open spec fn op_read() -> Seq<char> {
    seq!['r']
}

/// The name of the append operation.
pub open spec fn op_append() -> Seq<char> {
    seq!['a', 'p', 'p', 'e', 'n', 'd']
}

/// Whether `q` appends a number to its key.
pub open spec fn appends(q: QueryView) -> bool {
    q.op == op_append() && q.value is Append
}

/// What is wrong with one operation, if anything.
pub open spec fn fault_of(q: QueryView) -> Option<Fatal> {
    if q.op == op_read() || appends(q) {
        None
    } else if q.op == op_append() {
        Some(Fatal::WrongAppendValue)
    } else {
        Some(Fatal::WrongOperation)
    }
}

/// What is wrong with the first operation that is wrong, if any is.
pub open spec fn first_fault(ops: Seq<QueryView>) -> Option<Fatal>
    decreases ops.len(),
{
    if ops.len() == 0 {
        None
    } else {
        match first_fault(ops.drop_last()) {
            Some(f) => Some(f),
            None => fault_of(ops.last()),
        }
    }
}

/// The list under `key`, empty for a key that is absent.
pub open spec fn list_of(state: Map<u64, Seq<u64>>, key: u64) -> Seq<u64> {
    if state.contains_key(key) {
        state[key]
    } else {
        Seq::empty()
    }
}

/// The list under `key`, `None` for a key that is absent.
pub open spec fn lookup(state: Map<u64, Seq<u64>>, key: u64) -> Option<Seq<u64>> {
    if state.contains_key(key) {
        Some(state[key])
    } else {
        None
    }
}

/// The snapshot after one operation.
pub open spec fn step(state: Map<u64, Seq<u64>>, q: QueryView) -> Map<u64, Seq<u64>> {
    if appends(q) {
        state.insert(q.key, list_of(state, q.key).push(q.value->Append_0))
    } else {
        state
    }
}

/// The snapshot after a run of operations, applied in order.
pub open spec fn state_after(ops: Seq<QueryView>, init: Map<u64, Seq<u64>>) -> Map<u64, Seq<u64>>
    decreases ops.len(),
{
    if ops.len() == 0 {
        init
    } else {
        step(state_after(ops.drop_last(), init), ops.last())
    }
}

/// The answer to one operation against a snapshot: a read carries the list
/// under its key, anything else comes back as it is.
pub open spec fn answer(state: Map<u64, Seq<u64>>, q: QueryView) -> QueryView {
    if q.op == op_read() {
        QueryView { op: q.op, key: q.key, value: QueryValueView::Read(lookup(state, q.key)) }
    } else {
        q
    }
}

/// The answers to a run of operations: each one against the snapshot that
/// the operations before it have left.
pub open spec fn answers(ops: Seq<QueryView>, init: Map<u64, Seq<u64>>) -> Seq<QueryView> {
    Seq::new(ops.len(), |i: int| answer(state_after(ops.take(i), init), ops[i]))
}

/// The numbers that a run of operations appends to `key`, in order.
pub open spec fn appended(ops: Seq<QueryView>, key: u64) -> Seq<u64>
    decreases ops.len(),
{
    if ops.len() == 0 {
        Seq::empty()
    } else if appends(ops.last()) && ops.last().key == key {
        appended(ops.drop_last(), key).push(ops.last().value->Append_0)
    } else {
        appended(ops.drop_last(), key)
    }
}

/// After a run of operations a key holds what it held before them, followed
/// by what they appended to it; it is present if it was, or if they
/// appended to it.
pub proof fn lemma_state_after(ops: Seq<QueryView>, init: Map<u64, Seq<u64>>, key: u64)
    ensures
        state_after(ops, init).contains_key(key) <==> init.contains_key(key) || appended(
            ops,
            key,
        ).len() > 0,
        list_of(state_after(ops, init), key) == list_of(init, key) + appended(ops, key),
    decreases ops.len(),
{
    if ops.len() == 0 {
        assert(list_of(init, key) + Seq::<u64>::empty() =~= list_of(init, key));
    } else {
        let before = state_after(ops.drop_last(), init);
        lemma_state_after(ops.drop_last(), init, key);
        let q = ops.last();
        if appends(q) && q.key == key {
            assert(list_of(before, key).push(q.value->Append_0) =~= list_of(init, key) + appended(
                ops,
                key,
            ));
        }
    }
}

/// Within one transaction a read sees every earlier append to its key: the
/// list it is answered with is the list of the snapshot that the
/// transaction started from, followed by all that the operations before
/// the read appended to the key, in their order.
pub proof fn lemma_read_sees_snapshot_and_writes(
    ops: Seq<QueryView>,
    init: Map<u64, Seq<u64>>,
    j: int,
)
    requires
        0 <= j < ops.len(),
        ops[j].op == op_read(),
    ensures
        answers(ops, init)[j].op == ops[j].op,
        answers(ops, init)[j].key == ops[j].key,
        answers(ops, init)[j].value == QueryValueView::Read(
            if init.contains_key(ops[j].key) || appended(ops.take(j), ops[j].key).len() > 0 {
                Some(list_of(init, ops[j].key) + appended(ops.take(j), ops[j].key))
            } else {
                None
            },
        ),
{
    lemma_state_after(ops.take(j), init, ops[j].key);
}

/// What a longer run appends is what its head appends, followed by what
/// the rest appends.
pub proof fn lemma_appended_split(ops: Seq<QueryView>, key: u64, i: int)
    requires
        0 <= i <= ops.len(),
    ensures
        appended(ops, key) == appended(ops.take(i), key) + appended(
            ops.subrange(i, ops.len() as int),
            key,
        ),
    decreases ops.len(),
{
    let tail = ops.subrange(i, ops.len() as int);
    if i == ops.len() {
        assert(ops.take(i) =~= ops);
        assert(appended(ops, key) + Seq::<u64>::empty() =~= appended(ops, key));
    } else {
        lemma_appended_split(ops.drop_last(), key, i);
        assert(ops.drop_last().take(i) =~= ops.take(i));
        assert(ops.drop_last().subrange(i, ops.len() - 1) =~= tail.drop_last());
        assert(tail.last() == ops.last());
        let head = appended(ops.take(i), key);
        let rest = appended(tail.drop_last(), key);
        if appends(ops.last()) && ops.last().key == key {
            let v = ops.last().value->Append_0;
            assert((head + rest).push(v) =~= head + rest.push(v));
        }
    }
}

/// Read-your-writes: where operation `i` appends `v` to a key and a later
/// operation `j` reads that key, the read is answered with a list that
/// holds `v`, after whatever the key held before and whatever was appended
/// to it earlier. If nothing is appended to the key between the two, `v`
/// is the last element of that list.
pub proof fn lemma_read_your_writes(
    ops: Seq<QueryView>,
    init: Map<u64, Seq<u64>>,
    i: int,
    j: int,
)
    requires
        0 <= i < j < ops.len(),
        appends(ops[i]),
        ops[j].op == op_read(),
        ops[j].key == ops[i].key,
    ensures
        answers(ops, init)[j].value matches QueryValueView::Read(Some(list)) && {
            let at = list_of(init, ops[i].key).len() + appended(ops.take(i), ops[i].key).len();
            &&& at < list.len()
            &&& list[at as int] == ops[i].value->Append_0
            &&& (forall|m: int| i < m < j ==> !(appends(#[trigger] ops[m]) && ops[m].key
                == ops[i].key)) ==> list.last() == ops[i].value->Append_0
        },
{
    let key = ops[i].key;
    let v = ops[i].value->Append_0;
    let head = ops.take(j);
    lemma_read_sees_snapshot_and_writes(ops, init, j);
    lemma_appended_split(head, key, i + 1);
    assert(head.take(i + 1).drop_last() =~= ops.take(i));
    assert(head.take(i + 1).last() == ops[i]);
    let first = appended(ops.take(i), key);
    let mid = head.subrange(i + 1, j);
    assert(appended(head.take(i + 1), key) == first.push(v));
    assert(appended(head, key) == first.push(v) + appended(mid, key));
    if forall|m: int| i < m < j ==> !(appends(#[trigger] ops[m]) && ops[m].key == key) {
        assert forall|m: int| 0 <= m < mid.len() implies !(appends(#[trigger] mid[m]) && mid[m].key
            == key) by {
            assert(mid[m] == ops[i + 1 + m]);
        }
        lemma_appended_none(mid, key);
    }
}

/// A run in which nothing appends to `key` appends nothing to it.
pub proof fn lemma_appended_none(ops: Seq<QueryView>, key: u64)
    requires
        forall|m: int| 0 <= m < ops.len() ==> !(appends(#[trigger] ops[m]) && ops[m].key == key),
    ensures
        appended(ops, key).len() == 0,
    decreases ops.len(),
{
    if ops.len() > 0 {
        assert(ops.last() == ops[ops.len() - 1]);
        assert forall|m: int| 0 <= m < ops.drop_last().len() implies !(appends(
            #[trigger] ops.drop_last()[m],
        ) && ops.drop_last()[m].key == key) by {
            assert(ops.drop_last()[m] == ops[m]);
        }
        lemma_appended_none(ops.drop_last(), key);
    }
}

/// A fault in the head of a run is the fault of the run.
pub proof fn lemma_first_fault_prefix(ops: Seq<QueryView>, i: int)
    requires
        0 <= i <= ops.len(),
        first_fault(ops.take(i)) is Some,
    ensures
        first_fault(ops) == first_fault(ops.take(i)),
    decreases ops.len(),
{
    if i == ops.len() {
        assert(ops.take(i) =~= ops);
    } else {
        assert(ops.drop_last().take(i) =~= ops.take(i));
        lemma_first_fault_prefix(ops.drop_last(), i);
    }
}

/// Applies the operations of a transaction to a snapshot, in order, and
/// gives the answers: each read with the list that its key holds at that
/// point (`None` for a key that is absent), each append as it came. Stops
/// at the first operation that is wrong.
pub fn apply(ops: &Vec<Query>, state: &mut Table<Vec<u64>>) -> (r: Result<Vec<Query>, Fatal>)
    ensures
        match r {
            Ok(results) => {
                &&& first_fault(queries_view(ops@)) is None
                &&& queries_view(results@) == answers(queries_view(ops@), old(state)@)
                &&& final(state)@ == state_after(queries_view(ops@), old(state)@)
            },
            Err(f) => first_fault(queries_view(ops@)) == Some(f),
        },
{
    let ghost qs = queries_view(ops@);
    let ghost init = state@;
    let mut results: Vec<Query> = Vec::new();
    let mut i: usize = 0;
    proof {
        reveal_strlit("r");
        reveal_strlit("append");
        assert("r"@ =~= op_read());
        assert("append"@ =~= op_append());
    }
    while i < ops.len()
        invariant
            0 <= i <= ops.len(),
            results.len() == i,
            qs == queries_view(ops@),
            "r"@ == op_read(),
            "append"@ == op_append(),
            first_fault(qs.take(i as int)) is None,
            state@ == state_after(qs.take(i as int), init),
            forall|j: int|
                0 <= j < i ==> (#[trigger] results[j])@ == answer(
                    state_after(qs.take(j), init),
                    qs[j],
                ),
        decreases ops.len() - i,
    {
        let q = &ops[i];
        proof {
            assert(qs.take(i + 1).drop_last() =~= qs.take(i as int));
            assert(qs.take(i + 1).last() == q@);
        }
        if same_text(q.0.as_str(), "r") {
            let value = match state.get(q.1) {
                Some(list) => Some(list.clone()),
                None => None,
            };
            results.push(Query(q.0.clone(), q.1, QueryValue::Read(value)));
        } else if same_text(q.0.as_str(), "append") {
            match q.2 {
                QueryValue::Append(v) => {
                    let mut list = match state.get(q.1) {
                        Some(old_list) => old_list.clone(),
                        None => Vec::new(),
                    };
                    list.push(v);
                    state.insert(q.1, list);
                    results.push(Query(q.0.clone(), q.1, QueryValue::Append(v)));
                },
                QueryValue::Read(_) => {
                    proof {
                        lemma_first_fault_prefix(qs, i + 1);
                    }
                    return Err(Fatal::WrongAppendValue);
                },
            }
        } else {
            proof {
                lemma_first_fault_prefix(qs, i + 1);
            }
            return Err(Fatal::WrongOperation);
        }
        i += 1;
    }
    proof {
        assert(qs.take(i as int) =~= qs);
        assert(queries_view(results@) =~= answers(qs, init));
    }
    Ok(results)
}

} // verus!
