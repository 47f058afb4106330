use vstd::prelude::*;
use crate::commands::CommandType;
use crate::parse::{i64_of, seconds_ms_of, u64_of};
use crate::rdb::{holds_scalar, list_at, live, purge, range_of, reversed, Stored};
use crate::redis::{first_ready, first_ready_at, ready, serve, step, wants, Answer, State};
use crate::resp::{text_of, Value};

verus! {

/// A bulk string argument.
pub open spec fn arg(s: String) -> Value {
    Value::BulkString(s)
}

/// A value set with a time to live in whole seconds reads back until the time
/// to live has elapsed, and reads as absent from then on.
pub proof fn lemma_set_ex_then_get(
    s: State,
    k: String,
    v: String,
    ex: String,
    amount: String,
    now: u64,
    t: u64,
)
    requires
        ex@ == "EX"@,
        u64_of(amount@) is Some,
        now + u64_of(amount@)->Some_0 * 1000 <= u64::MAX,
    ensures
        step(s, CommandType::SetKey, seq![arg(k), arg(v), arg(ex), arg(amount)], now).0
            == Answer::Status("OK"@),
        t < now + u64_of(amount@)->Some_0 * 1000 ==> step(
            step(s, CommandType::SetKey, seq![arg(k), arg(v), arg(ex), arg(amount)], now).1,
            CommandType::Get,
            seq![arg(k)],
            t,
        ).0 == Answer::Bulk(v),
        t >= now + u64_of(amount@)->Some_0 * 1000 ==> step(
            step(s, CommandType::SetKey, seq![arg(k), arg(v), arg(ex), arg(amount)], now).1,
            CommandType::Get,
            seq![arg(k)],
            t,
        ).0 == Answer::Null,
{
    reveal_strlit("EX");
    let args = seq![arg(k), arg(v), arg(ex), arg(amount)];
    assert(args.len() == 4);
    assert(args[2] == arg(ex));
    assert(args[3] == arg(amount));
    let s1 = step(s, CommandType::SetKey, args, now).1;
    assert(s1.keys.contains_key(k@));
    assert(s1.keys[k@] == Stored::Scalar(v, Some((now + u64_of(amount@)->Some_0 * 1000) as u64)));
}

/// A value set without expiry reads back at any later time, and setting one
/// key leaves what every other key reads unchanged.
pub proof fn lemma_set_then_get(s: State, k: String, v: String, other: String, now: u64, t: u64)
    requires
        other@ != k@,
    ensures
        step(
            step(s, CommandType::SetKey, seq![arg(k), arg(v)], now).1,
            CommandType::Get,
            seq![arg(k)],
            t,
        ).0 == Answer::Bulk(v),
        step(
            step(s, CommandType::SetKey, seq![arg(k), arg(v)], now).1,
            CommandType::Get,
            seq![arg(other)],
            t,
        ).0 == step(s, CommandType::Get, seq![arg(other)], t).0,
{
    let args = seq![arg(k), arg(v)];
    assert(args.len() == 2);
    let s1 = step(s, CommandType::SetKey, args, now).1;
    assert(s1.keys == s.keys.insert(k@, Stored::Scalar(v, None)));
    assert(live(s1.keys, other@, t) == live(s.keys, other@, t));
}

/// Serving a list to waiters of which none wants its key hands out nothing.
pub proof fn lemma_serve_none_wanted(ws: Seq<(u64, Seq<String>)>, key: String, items: Seq<String>)
    requires
        forall|i: int| 0 <= i < ws.len() ==> !wants(#[trigger] ws[i].1, key@),
    ensures
        serve(ws, key, items) == (ws, Seq::<(u64, String, String)>::empty(), items),
    decreases ws.len(),
{
    if ws.len() > 0 && items.len() > 0 {
        assert(!wants(ws[0].1, key@));
        let t = ws.drop_first();
        assert forall|i: int| 0 <= i < t.len() implies !wants(#[trigger] t[i].1, key@) by {
            assert(t[i] == ws[i + 1]);
        }
        lemma_serve_none_wanted(t, key, items);
        assert(seq![ws[0]] + t =~= ws);
    }
}

/// LRANGE from 0 to -1 gives the whole list.
pub proof fn lemma_range_whole(l: Seq<String>)
    ensures
        range_of(l, 0, -1) == l,
{
    if l.len() > 0 {
        assert(l.subrange(0, l.len() as int) =~= l);
    }
}

/// Negative indices count from the tail: -n to -1 gives the last n items of a
/// list of at least n; a start at or past the end gives nothing.
pub proof fn lemma_range_from_tail(l: Seq<String>, n: int, start: int, end: int)
    requires
        1 <= n <= l.len(),
        start >= l.len(),
    ensures
        range_of(l, -n, -1) == l.subrange(l.len() - n, l.len() as int),
        range_of(l, start, end) == Seq::<String>::empty(),
{
}

/// BLPOP over two keys, the first holding nothing and the second a non-empty
/// list, answers at once with the second key and its head, and registers no
/// waiter.
pub proof fn lemma_blpop_ready_key(s: State, k1: String, k2: String, timeout: String, now: u64)
    requires
        !s.keys.contains_key(k1@),
        list_at(s.keys, k2@, now).len() > 0,
        seconds_ms_of(timeout@) is Some,
    ensures
        step(s, CommandType::BLpop, seq![arg(k1), arg(k2), arg(timeout)], now).0 == Answer::Pair(
            k2,
            list_at(s.keys, k2@, now)[0],
        ),
        step(s, CommandType::BLpop, seq![arg(k1), arg(k2), arg(timeout)], now).1.waiters
            == s.waiters,
{
    let args = seq![arg(k1), arg(k2), arg(timeout)];
    assert(crate::redis::all_text(args));
    let t = crate::redis::texts(args);
    assert(t.last() == timeout);
    let keys = t.drop_last();
    assert(keys =~= seq![k1, k2]);
    assert(!ready(s.keys, keys[0], now));
    assert(first_ready_at(s.keys, keys, now, 1));
    let c = choose|c: int| first_ready_at(s.keys, keys, now, c);
    assert(c == 1);
    assert(first_ready(s.keys, keys, now) == Some(1int));
}

/// The values that a sequence of deliveries hands out, in order.
pub open spec fn delivered_values(ds: Seq<(u64, String, String)>) -> Seq<String> {
    Seq::new(ds.len(), |i: int| ds[i].2)
}

/// Serving a list hands each item to at most one waiter and keeps in the
/// list exactly the items not handed out: the values delivered, followed by
/// the items left, are the items served, in order.
pub proof fn lemma_serve_conserves(ws: Seq<(u64, Seq<String>)>, key: String, items: Seq<String>)
    ensures
        delivered_values(serve(ws, key, items).1) + serve(ws, key, items).2 == items,
    decreases ws.len(),
{
    if ws.len() == 0 || items.len() == 0 {
        assert(delivered_values(Seq::<(u64, String, String)>::empty()) + items =~= items);
    } else if wants(ws[0].1, key@) {
        let rest = serve(ws.drop_first(), key, items.drop_first());
        lemma_serve_conserves(ws.drop_first(), key, items.drop_first());
        let d = seq![(ws[0].0, key, items[0])] + rest.1;
        assert(delivered_values(d) =~= seq![items[0]] + delivered_values(rest.1));
        assert(seq![items[0]] + (delivered_values(rest.1) + rest.2) =~= items);
        assert(delivered_values(d) + rest.2 =~= seq![items[0]] + (delivered_values(rest.1)
            + rest.2));
    } else {
        lemma_serve_conserves(ws.drop_first(), key, items);
    }
}

/// The arguments of a push of `vals` onto `k`.
pub open spec fn push_args(k: String, vals: Seq<String>) -> Seq<Value> {
    Seq::new(vals.len() + 1, |i: int| if i == 0 { arg(k) } else { arg(vals[i - 1]) })
}

/// One RPUSH (`front` false) or LPUSH (`front` true) of at least one value, on a
/// key that holds no live scalar and that no blocked pop waits for, answers the
/// new length and sets the list to the values appended at the tail in order,
/// or inserted at the head so that the last value ends first. Nothing else
/// changes.
pub proof fn lemma_push_step(s: State, k: String, vals: Seq<String>, front: bool, now: u64)
    requires
        vals.len() >= 1,
        !holds_scalar(s.keys, k@, now),
        forall|i: int| 0 <= i < s.waiters.len() ==> !wants(#[trigger] s.waiters[i].1, k@),
    ensures
        ({
            let l = list_at(s.keys, k@, now);
            let list = if front { reversed(vals) + l } else { l + vals };
            let ty = if front { CommandType::LPush } else { CommandType::Rpush };
            let r = step(s, ty, push_args(k, vals), now);
            &&& r.0 == Answer::Int(list.len())
            &&& r.1.keys == s.keys.insert(k@, Stored::List(list))
            &&& r.1.waiters == s.waiters
            &&& r.1.deliveries == s.deliveries
        }),
{
    let args = push_args(k, vals);
    let l = list_at(s.keys, k@, now);
    let list = if front { reversed(vals) + l } else { l + vals };
    assert(args[0] == arg(k));
    assert(crate::redis::all_text(args));
    assert(crate::redis::texts(args).skip(1) =~= vals);
    assert(crate::redis::texts(args)[0] == k);
    lemma_serve_none_wanted(s.waiters, k, list);
    assert(list.len() > 0);
    assert(s.deliveries + Seq::<(u64, String, String)>::empty() =~= s.deliveries);
}

/// The state after a sequence of pushes onto `k`, each a direction (`true`
/// for LPUSH) and the values pushed.
pub open spec fn run_pushes(s: State, k: String, ops: Seq<(bool, Seq<String>)>, now: u64) -> State
    decreases ops.len(),
{
    if ops.len() == 0 {
        s
    } else {
        let op = ops.last();
        step(
            run_pushes(s, k, ops.drop_last(), now),
            if op.0 { CommandType::LPush } else { CommandType::Rpush },
            push_args(k, op.1),
            now,
        ).1
    }
}

/// The list that a sequence of pushes builds from `l`.
pub open spec fn pushed_list(l: Seq<String>, ops: Seq<(bool, Seq<String>)>) -> Seq<String>
    decreases ops.len(),
{
    if ops.len() == 0 {
        l
    } else {
        let p = pushed_list(l, ops.drop_last());
        if ops.last().0 {
            reversed(ops.last().1) + p
        } else {
            p + ops.last().1
        }
    }
}

/// After any sequence of RPUSH and LPUSH calls on a key that holds no live
/// scalar and that no blocked pop waits for, the key holds the list that the
/// pushes build, and LRANGE 0 -1 gives all of it.
pub proof fn lemma_pushes_then_range(
    s: State,
    k: String,
    ops: Seq<(bool, Seq<String>)>,
    zero: String,
    minus_one: String,
    now: u64,
)
    requires
        i64_of(zero@) == Some(0i64),
        i64_of(minus_one@) == Some(-1i64),
        forall|i: int| 0 <= i < ops.len() ==> (#[trigger] ops[i]).1.len() >= 1,
        !holds_scalar(s.keys, k@, now),
        forall|i: int| 0 <= i < s.waiters.len() ==> !wants(#[trigger] s.waiters[i].1, k@),
    ensures
        run_pushes(s, k, ops, now).waiters == s.waiters,
        !holds_scalar(run_pushes(s, k, ops, now).keys, k@, now),
        list_at(run_pushes(s, k, ops, now).keys, k@, now) == pushed_list(
            list_at(s.keys, k@, now),
            ops,
        ),
        step(
            run_pushes(s, k, ops, now),
            CommandType::Lrange,
            seq![arg(k), arg(zero), arg(minus_one)],
            now,
        ).0 == Answer::Items(pushed_list(list_at(s.keys, k@, now), ops)),
    decreases ops.len(),
{
    if ops.len() > 0 {
        let init = ops.drop_last();
        assert forall|i: int| 0 <= i < init.len() implies (#[trigger] init[i]).1.len() >= 1 by {
            assert(init[i] == ops[i]);
        }
        lemma_pushes_then_range(s, k, init, zero, minus_one, now);
        let s0 = run_pushes(s, k, init, now);
        assert(ops.last() == ops[ops.len() - 1]);
        lemma_push_step(s0, k, ops.last().1, ops.last().0, now);
    }
    let s1 = run_pushes(s, k, ops, now);
    let rargs = seq![arg(k), arg(zero), arg(minus_one)];
    assert(crate::redis::all_text(rargs));
    assert(crate::redis::texts(rargs)[1] == zero);
    assert(crate::redis::texts(rargs)[2] == minus_one);
    assert(crate::redis::texts(rargs)[0] == k);
    lemma_range_whole(list_at(s1.keys, k@, now));
}

/// LPOP on a key with no list (absent, or emptied) answers null, and with a
/// count an empty array; the key is left without an entry.
pub proof fn lemma_lpop_empty(s: State, k: String, count: String, now: u64)
    requires
        list_at(s.keys, k@, now).len() == 0,
        !holds_scalar(s.keys, k@, now),
        u64_of(count@) is Some,
        u64_of(count@)->Some_0 <= usize::MAX,
    ensures
        step(s, CommandType::LPop, seq![arg(k)], now).0 == Answer::Null,
        step(s, CommandType::LPop, seq![arg(k)], now).1.keys == purge(s.keys, k@, now).remove(k@),
        step(s, CommandType::LPop, seq![arg(k), arg(count)], now).0 == Answer::Items(
            Seq::<String>::empty(),
        ),
        step(s, CommandType::LPop, seq![arg(k), arg(count)], now).1.keys == purge(
            s.keys,
            k@,
            now,
        ).remove(k@),
{
    let a1 = seq![arg(k)];
    let a2 = seq![arg(k), arg(count)];
    assert(crate::redis::all_text(a1));
    assert(crate::redis::all_text(a2));
    assert(crate::redis::texts(a1)[0] == k);
    assert(crate::redis::texts(a2)[0] == k);
    assert(crate::redis::texts(a2)[1] == count);
    assert(list_at(s.keys, k@, now).take(0) =~= Seq::<String>::empty());
}

/// Serving one item to a queue of waiters hands it to the first that wants
/// its key; every other waiter stays, in order.
pub proof fn lemma_serve_first_wanting(
    pre: Seq<(u64, Seq<String>)>,
    w: (u64, Seq<String>),
    post: Seq<(u64, Seq<String>)>,
    key: String,
    v: String,
)
    requires
        forall|i: int| 0 <= i < pre.len() ==> !wants(#[trigger] pre[i].1, key@),
        wants(w.1, key@),
    ensures
        serve(pre + seq![w] + post, key, seq![v]) == (
            pre + post,
            seq![(w.0, key, v)],
            Seq::<String>::empty(),
        ),
    decreases pre.len(),
{
    let ws = pre + seq![w] + post;
    if pre.len() == 0 {
        assert(ws[0] == w);
        assert(ws.drop_first() =~= post);
        assert(seq![v].drop_first() =~= Seq::<String>::empty());
        assert(pre + post =~= post);
        let rest = serve(post, key, Seq::<String>::empty());
        assert(rest == (post, Seq::<(u64, String, String)>::empty(), Seq::<String>::empty()));
        assert(seq![(w.0, key, v)] + rest.1 =~= seq![(w.0, key, v)]);
        assert(serve(ws, key, seq![v]) == (rest.0, seq![(w.0, key, v)] + rest.1, rest.2));
    } else {
        let t = pre.drop_first();
        assert forall|i: int| 0 <= i < t.len() implies !wants(#[trigger] t[i].1, key@) by {
            assert(t[i] == pre[i + 1]);
        }
        assert(ws[0] == pre[0]);
        assert(!wants(pre[0].1, key@));
        assert(ws.drop_first() =~= t + seq![w] + post);
        lemma_serve_first_wanting(t, w, post, key, v);
        let rest = serve(t + seq![w] + post, key, seq![v]);
        assert(seq![pre[0]] + (t + post) =~= pre + post);
        assert(serve(ws, key, seq![v]) == (seq![ws[0]] + rest.0, rest.1, rest.2));
    }
}

/// A single RPUSH of one value onto a key with no list and no live scalar
/// hands the value to the earliest registered waiter on that key, and to no
/// other; the value is not stored, and every other waiter stays registered in
/// order.
pub proof fn lemma_push_serves_first_waiter(
    s: State,
    pre: Seq<(u64, Seq<String>)>,
    w: (u64, Seq<String>),
    post: Seq<(u64, Seq<String>)>,
    k: String,
    v: String,
    now: u64,
)
    requires
        s.waiters == pre + seq![w] + post,
        forall|i: int| 0 <= i < pre.len() ==> !wants(#[trigger] pre[i].1, k@),
        wants(w.1, k@),
        list_at(s.keys, k@, now).len() == 0,
        !holds_scalar(s.keys, k@, now),
    ensures
        step(s, CommandType::Rpush, seq![arg(k), arg(v)], now).0 == Answer::Int(1),
        step(s, CommandType::Rpush, seq![arg(k), arg(v)], now).1.deliveries == s.deliveries.push(
            (w.0, k, v),
        ),
        step(s, CommandType::Rpush, seq![arg(k), arg(v)], now).1.waiters == pre + post,
        !step(s, CommandType::Rpush, seq![arg(k), arg(v)], now).1.keys.contains_key(k@),
{
    let args = seq![arg(k), arg(v)];
    assert(crate::redis::all_text(args));
    assert(crate::redis::texts(args)[0] == k);
    assert(crate::redis::texts(args).skip(1) =~= seq![v]);
    assert(list_at(s.keys, k@, now) + seq![v] =~= seq![v]);
    lemma_serve_first_wanting(pre, w, post, k, v);
    assert(s.deliveries + seq![(w.0, k, v)] =~= s.deliveries.push((w.0, k, v)));
}

/// True where the arguments name the key `k` first.
pub open spec fn names_key(args: Seq<Value>, k: Seq<char>) -> bool {
    args.len() > 0 && text_of(args[0]) is Some && (text_of(args[0])->Some_0)@ == k
}

/// The state after a sequence of commands, each a kind, its arguments and the
/// time it runs at.
pub open spec fn run_cmds(s: State, cmds: Seq<(CommandType, Seq<Value>, u64)>) -> State
    decreases cmds.len(),
{
    if cmds.len() == 0 {
        s
    } else {
        let c = cmds.last();
        step(run_cmds(s, cmds.drop_last()), c.0, c.1, c.2).1
    }
}

/// A value set without expiry at `k` reads back unchanged after any sequence
/// of SET and GET calls on other keys.
pub proof fn lemma_read_after_write(
    s: State,
    k: String,
    v: String,
    now: u64,
    cmds: Seq<(CommandType, Seq<Value>, u64)>,
    t: u64,
)
    requires
        forall|i: int|
            0 <= i < cmds.len() ==> ((#[trigger] cmds[i]).0 == CommandType::SetKey || cmds[i].0
                == CommandType::Get) && !names_key(cmds[i].1, k@),
    ensures
        step(
            run_cmds(step(s, CommandType::SetKey, seq![arg(k), arg(v)], now).1, cmds),
            CommandType::Get,
            seq![arg(k)],
            t,
        ).0 == Answer::Bulk(v),
{
    let s1 = step(s, CommandType::SetKey, seq![arg(k), arg(v)], now).1;
    assert(s1.keys == s.keys.insert(k@, Stored::Scalar(v, None)));
    lemma_other_keys_keep(s1, k, v, cmds);
}

/// SET and GET calls on other keys keep the scalar at `k`.
proof fn lemma_other_keys_keep(s: State, k: String, v: String, cmds: Seq<(CommandType, Seq<Value>, u64)>)
    requires
        s.keys.contains_key(k@),
        s.keys[k@] == Stored::Scalar(v, None),
        forall|i: int|
            0 <= i < cmds.len() ==> ((#[trigger] cmds[i]).0 == CommandType::SetKey || cmds[i].0
                == CommandType::Get) && !names_key(cmds[i].1, k@),
    ensures
        run_cmds(s, cmds).keys.contains_key(k@),
        run_cmds(s, cmds).keys[k@] == Stored::Scalar(v, None),
    decreases cmds.len(),
{
    if cmds.len() > 0 {
        let init = cmds.drop_last();
        assert forall|i: int| 0 <= i < init.len() implies ((#[trigger] init[i]).0
            == CommandType::SetKey || init[i].0 == CommandType::Get) && !names_key(init[i].1, k@) by {
            assert(init[i] == cmds[i]);
        }
        lemma_other_keys_keep(s, k, v, init);
        let c = cmds[cmds.len() - 1];
        assert(cmds.last() == c);
        assert(!names_key(c.1, k@));
    }
}

} // verus!
