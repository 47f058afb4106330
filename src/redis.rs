use vstd::prelude::*;
use crate::commands::{Command, CommandType};
use crate::parse::{i64_of, parse_i64, parse_seconds_ms, parse_u64, seconds_ms_of, u64_of};
use crate::rdb::{
    after_pop, expiry_for, holds_list, holds_scalar, list_at, live, purge, range_of,
    reversed, Entry, Rdb, Slot, Stored,
};
use crate::resp::{as_text, text_of, Value};

verus! {

/// What the executor hands back for one command.
#[derive(Debug, PartialEq, Eq)]
pub enum Reply {
    /// The response to send now.
    Ready(Value),
    /// A blocking pop registered waiter `id`; the caller waits for a delivery
    /// to it, and gives up after `timeout_ms` milliseconds (never, where `None`).
    Blocked { id: u64, timeout_ms: Option<u64> },
}

/// What a command answers, as contracts see it.
pub enum Answer {
    Status(Seq<char>),
    Bulk(String),
    Int(nat),
    Items(Seq<String>),
    Pair(String, String),
    Null,
    Fail,
    Wait(u64, Option<u64>),
    Verbatim(Value),
}

/// True where the value `v` gives the answer `a`.
pub open spec fn value_answers(v: Value, a: Answer) -> bool {
    match a {
        Answer::Status(s) => v matches Value::SimpleString(t) && t@ == s,
        Answer::Bulk(s) => v == Value::BulkString(s),
        Answer::Int(n) => v matches Value::IntegerString(i) && i == n,
        Answer::Items(items) => v matches Value::Array(vs) && vs@.len() == items.len() && forall|
            i: int,
        |
            0 <= i < items.len() ==> #[trigger] vs@[i] == Value::BulkString(items[i]),
        Answer::Pair(k, x) => v matches Value::Array(vs) && vs@.len() == 2 && vs@[0]
            == Value::BulkString(k) && vs@[1] == Value::BulkString(x),
        Answer::Null => v is NullBulkString,
        Answer::Fail => v is Error,
        Answer::Wait(_, _) => false,
        Answer::Verbatim(x) => v == x,
    }
}

/// True where the reply `r` gives the answer `a`.
pub open spec fn answers(r: Reply, a: Answer) -> bool {
    match a {
        Answer::Wait(id, t) => r matches Reply::Blocked { id: i, timeout_ms: u } && i == id && u == t,
        _ => r matches Reply::Ready(v) && value_answers(v, a),
    }
}

/// The whole server state: the keyspace, the waiters of blocking pops in
/// order of registration (each an id and its keys), the items handed to
/// waiters and not yet collected (id, key, value), and the next waiter id.
pub struct State {
    pub keys: Map<Seq<char>, Stored>,
    pub waiters: Seq<(u64, Seq<String>)>,
    pub deliveries: Seq<(u64, String, String)>,
    pub next_id: u64,
}

/// `s` with its keyspace replaced by `m`.
pub open spec fn with_keys(s: State, m: Map<Seq<char>, Stored>) -> State {
    State { keys: m, waiters: s.waiters, deliveries: s.deliveries, next_id: s.next_id }
}

/// True where a waiter on `keys` waits for `k`.
pub open spec fn wants(keys: Seq<String>, k: Seq<char>) -> bool {
    exists|i: int| 0 <= i < keys.len() && (#[trigger] keys[i])@ == k
}

/// Hands the items of a list at `key`, head first, to the waiters that want
/// that key, earliest registered first, one item each. Gives the waiters
/// left, the deliveries made, and the items left.
pub open spec fn serve(ws: Seq<(u64, Seq<String>)>, key: String, items: Seq<String>) -> (
    Seq<(u64, Seq<String>)>,
    Seq<(u64, String, String)>,
    Seq<String>,
)
    decreases ws.len(),
{
    if ws.len() == 0 || items.len() == 0 {
        (ws, Seq::empty(), items)
    } else if wants(ws[0].1, key@) {
        let rest = serve(ws.drop_first(), key, items.drop_first());
        (rest.0, seq![(ws[0].0, key, items[0])] + rest.1, rest.2)
    } else {
        let rest = serve(ws.drop_first(), key, items);
        (seq![ws[0]] + rest.0, rest.1, rest.2)
    }
}

/// The state once the list at `key` became `list` and its items were served
/// to waiters; a list that waiters emptied is dropped.
pub open spec fn after_push(s: State, key: String, list: Seq<String>) -> State {
    let r = serve(s.waiters, key, list);
    State {
        keys: if r.2.len() == 0 {
            s.keys.remove(key@)
        } else {
            s.keys.insert(key@, Stored::List(r.2))
        },
        waiters: r.0,
        deliveries: s.deliveries + r.1,
        next_id: s.next_id,
    }
}

/// True where every argument is a string.
pub open spec fn all_text(a: Seq<Value>) -> bool {
    forall|i: int| 0 <= i < a.len() ==> #[trigger] text_of(a[i]) is Some
}

/// The strings of arguments that are all strings.
pub open spec fn texts(a: Seq<Value>) -> Seq<String> {
    Seq::new(a.len(), |i: int| text_of(a[i])->Some_0)
}

/// True where the list at `k` has an item.
pub open spec fn ready(m: Map<Seq<char>, Stored>, k: String, now: u64) -> bool {
    list_at(m, k@, now).len() > 0
}

/// True where `j` is the first of `keys` whose list has an item.
pub open spec fn first_ready_at(m: Map<Seq<char>, Stored>, keys: Seq<String>, now: u64, j: int) -> bool {
    0 <= j < keys.len() && ready(m, keys[j], now) && forall|i: int|
        0 <= i < j ==> !ready(m, #[trigger] keys[i], now)
}

/// The first of `keys` whose list has an item, if any.
pub open spec fn first_ready(m: Map<Seq<char>, Stored>, keys: Seq<String>, now: u64) -> Option<int> {
    if exists|j: int| first_ready_at(m, keys, now, j) {
        Some(choose|j: int| first_ready_at(m, keys, now, j))
    } else {
        None
    }
}

/// ECHO: the first argument back, as it came.
pub open spec fn echo_step(s: State, args: Seq<Value>) -> (Answer, State) {
    if args.len() == 0 {
        (Answer::Fail, s)
    } else {
        (Answer::Verbatim(args[0]), s)
    }
}

/// GET key.
pub open spec fn get_step(s: State, args: Seq<Value>, now: u64) -> (Answer, State) {
    if args.len() != 1 || text_of(args[0]) is None {
        (Answer::Fail, s)
    } else {
        let k = text_of(args[0])->Some_0;
        let s2 = with_keys(s, purge(s.keys, k@, now));
        match live(s.keys, k@, now) {
            None => (Answer::Null, s2),
            Some(Stored::Scalar(v, _)) => (Answer::Bulk(v), s2),
            Some(Stored::List(_)) => (Answer::Fail, s2),
        }
    }
}

/// SET key value [EX seconds | PX milliseconds].
pub open spec fn set_step(s: State, args: Seq<Value>, now: u64) -> (Answer, State) {
    if (args.len() != 2 && args.len() != 4) || text_of(args[0]) is None || text_of(args[1]) is None {
        (Answer::Fail, s)
    } else {
        let unit = if args.len() == 4 { Some(args[2]) } else { None };
        let amount = if args.len() == 4 { Some(args[3]) } else { None };
        match expiry_for(unit, amount, now) {
            None => (Answer::Fail, s),
            Some(e) => (
                Answer::Status("OK"@),
                with_keys(
                    s,
                    s.keys.insert(
                        (text_of(args[0])->Some_0)@,
                        Stored::Scalar(text_of(args[1])->Some_0, e),
                    ),
                ),
            ),
        }
    }
}

/// RPUSH (`front` false) or LPUSH (`front` true) key value...
pub open spec fn push_step(s: State, args: Seq<Value>, now: u64, front: bool) -> (Answer, State) {
    if args.len() < 2 || !all_text(args) {
        (Answer::Fail, s)
    } else {
        let t = texts(args);
        let k = t[0];
        let vals = t.skip(1);
        if holds_scalar(s.keys, k@, now) {
            (Answer::Fail, s)
        } else {
            let l = list_at(s.keys, k@, now);
            let list = if front { reversed(vals) + l } else { l + vals };
            (Answer::Int(list.len()), after_push(s, k, list))
        }
    }
}

/// LRANGE key start end.
pub open spec fn lrange_step(s: State, args: Seq<Value>, now: u64) -> (Answer, State) {
    if args.len() != 3 || !all_text(args) || i64_of(texts(args)[1]@) is None || i64_of(
        texts(args)[2]@,
    ) is None {
        (Answer::Fail, s)
    } else {
        let k = texts(args)[0];
        let a = i64_of(texts(args)[1]@)->Some_0;
        let b = i64_of(texts(args)[2]@)->Some_0;
        let s2 = with_keys(s, purge(s.keys, k@, now));
        if holds_scalar(s.keys, k@, now) {
            (Answer::Fail, s2)
        } else {
            (Answer::Items(range_of(list_at(s.keys, k@, now), a as int, b as int)), s2)
        }
    }
}

/// LLEN key.
pub open spec fn llen_step(s: State, args: Seq<Value>, now: u64) -> (Answer, State) {
    if args.len() != 1 || text_of(args[0]) is None {
        (Answer::Fail, s)
    } else {
        let k = text_of(args[0])->Some_0;
        let s2 = with_keys(s, purge(s.keys, k@, now));
        if holds_scalar(s.keys, k@, now) {
            (Answer::Fail, s2)
        } else {
            (Answer::Int(list_at(s.keys, k@, now).len()), s2)
        }
    }
}

/// LPOP key [count].
pub open spec fn lpop_step(s: State, args: Seq<Value>, now: u64) -> (Answer, State) {
    if args.len() < 1 || args.len() > 2 || !all_text(args) {
        (Answer::Fail, s)
    } else {
        let k = texts(args)[0];
        let l = list_at(s.keys, k@, now);
        if args.len() == 1 {
            if holds_scalar(s.keys, k@, now) {
                (Answer::Fail, s)
            } else {
                (
                    if l.len() == 0 { Answer::Null } else { Answer::Bulk(l[0]) },
                    with_keys(s, after_pop(s.keys, k@, now, 1)),
                )
            }
        } else {
            match u64_of(texts(args)[1]@) {
                None => (Answer::Fail, s),
                Some(c) => if c > usize::MAX || holds_scalar(s.keys, k@, now) {
                    (Answer::Fail, s)
                } else {
                    (
                        Answer::Items(l.take(if c < l.len() { c as int } else { l.len() as int })),
                        with_keys(s, after_pop(s.keys, k@, now, c as int)),
                    )
                },
            }
        }
    }
}

/// BLPOP key... timeout: the head of the first of the keys whose list has an
/// item, else a new waiter on all of them. The timeout is in seconds, with up
/// to three digits of fraction; 0 means no limit.
pub open spec fn blpop_step(s: State, args: Seq<Value>, now: u64) -> (Answer, State) {
    if args.len() < 2 || !all_text(args) {
        (Answer::Fail, s)
    } else {
        let t = texts(args);
        let keys = t.drop_last();
        match seconds_ms_of(t.last()@) {
            None => (Answer::Fail, s),
            Some(ms) => match first_ready(s.keys, keys, now) {
                Some(j) => (
                    Answer::Pair(keys[j], list_at(s.keys, keys[j]@, now)[0]),
                    with_keys(s, after_pop(s.keys, keys[j]@, now, 1)),
                ),
                None => if s.next_id == u64::MAX {
                    (Answer::Fail, s)
                } else {
                    (
                        Answer::Wait(s.next_id, if ms == 0 { None } else { Some(ms) }),
                        State {
                            keys: s.keys,
                            waiters: s.waiters.push((s.next_id, keys)),
                            deliveries: s.deliveries,
                            next_id: (s.next_id + 1) as u64,
                        },
                    )
                },
            },
        }
    }
}

/// What a command of kind `ty` with arguments `args` answers at time `now`,
/// and the state it leaves.
pub open spec fn step(s: State, ty: CommandType, args: Seq<Value>, now: u64) -> (Answer, State) {
    match ty {
        CommandType::Ping => (Answer::Status("PONG"@), s),
        CommandType::Echo => echo_step(s, args),
        CommandType::SetKey => set_step(s, args, now),
        CommandType::Get => get_step(s, args, now),
        CommandType::Rpush => push_step(s, args, now, false),
        CommandType::LPush => push_step(s, args, now, true),
        CommandType::Lrange => lrange_step(s, args, now),
        CommandType::LLen => llen_step(s, args, now),
        CommandType::LPop => lpop_step(s, args, now),
        CommandType::BLpop => blpop_step(s, args, now),
        CommandType::Unknown => (Answer::Fail, s),
    }
}

/// True where `j` is the first delivery to waiter `id`.
pub open spec fn first_delivery(ds: Seq<(u64, String, String)>, id: u64, j: int) -> bool {
    0 <= j < ds.len() && ds[j].0 == id && forall|i: int| 0 <= i < j ==> (#[trigger] ds[i]).0 != id
}

/// True where `j` is the first registration of waiter `id`.
pub open spec fn first_waiter(ws: Seq<(u64, Seq<String>)>, id: u64, j: int) -> bool {
    0 <= j < ws.len() && ws[j].0 == id && forall|i: int| 0 <= i < j ==> (#[trigger] ws[i]).0 != id
}

/// The view of the waiters' exec form.
pub open spec fn waiters_view(w: Seq<(u64, Vec<String>)>) -> Seq<(u64, Seq<String>)> {
    w.map_values(|x: (u64, Vec<String>)| (x.0, x.1@))
}

/// The server: the shared keyspace and the registry of blocking pops.
pub struct Redis {
    rdb: Rdb,
    waiters: Vec<(u64, Vec<String>)>,
    deliveries: Vec<(u64, String, String)>,
    next_id: u64,
}

impl View for Redis {
    type V = State;

    closed spec fn view(&self) -> State {
        State {
            keys: self.rdb@,
            waiters: waiters_view(self.waiters@),
            deliveries: self.deliveries@,
            next_id: self.next_id,
        }
    }
}

/// An error reply.
fn fail(msg: &str) -> (r: Reply)
    ensures
        answers(r, Answer::Fail),
        r matches Reply::Ready(Value::Error(m)) && m@ == msg@,
{
    Reply::Ready(Value::Error(msg.to_owned()))
}

/// The strings of `args`, if all of them are strings.
fn texts_of(args: &Vec<Value>) -> (r: Option<Vec<String>>)
    ensures
        r is Some <==> all_text(args@),
        r matches Some(t) ==> t@ == texts(args@),
{
    let mut out: Vec<String> = Vec::new();
    let mut i: usize = 0;
    while i < args.len()
        invariant
            i <= args@.len(),
            all_text(args@.subrange(0, i as int)),
            out@ == texts(args@.subrange(0, i as int)),
        decreases args@.len() - i,
    {
        let ghost pre = args@.subrange(0, i as int);
        let ghost next = args@.subrange(0, i + 1);
        match as_text(&args[i]) {
            Some(t) => out.push(t),
            None => {
                assert(text_of(args@[i as int]) is None);
                return None;
            },
        }
        assert forall|j: int| 0 <= j < next.len() implies #[trigger] text_of(next[j]) is Some by {
            if j < i {
                assert(next[j] == pre[j]);
            }
        }
        assert(out@ =~= texts(next));
        i = i + 1;
    }
    assert(args@.subrange(0, i as int) =~= args@);
    Some(out)
}

/// True where `keys` holds `k`.
fn wants_key(keys: &Vec<String>, k: &String) -> (r: bool)
    ensures
        r == wants(keys@, k@),
{
    let mut i: usize = 0;
    while i < keys.len()
        invariant
            i <= keys@.len(),
            forall|j: int| 0 <= j < i ==> keys@[j]@ != k@,
        decreases keys@.len() - i,
    {
        if keys[i] == *k {
            return true;
        }
        i = i + 1;
    }
    false
}

/// An array of bulk strings.
fn bulk_items(items: &Vec<String>) -> (v: Value)
    ensures
        value_answers(v, Answer::Items(items@)),
{
    let mut vs: Vec<Value> = Vec::new();
    let mut i: usize = 0;
    while i < items.len()
        invariant
            i <= items@.len(),
            vs@.len() == i,
            forall|j: int| 0 <= j < i ==> #[trigger] vs@[j] == Value::BulkString(items@[j]),
        decreases items@.len() - i,
    {
        vs.push(Value::BulkString(items[i].clone()));
        i = i + 1;
    }
    Value::Array(vs)
}

impl Redis {
    /// The state invariant.
    pub closed spec fn wf(&self) -> bool {
        self.rdb.wf()
    }

    /// An empty server.
    pub fn new() -> (r: Redis)
        ensures
            r.wf(),
            r@.keys == Map::<Seq<char>, Stored>::empty(),
            r@.waiters.len() == 0,
            r@.deliveries.len() == 0,
    {
        let r = Redis { rdb: Rdb::new(), waiters: Vec::new(), deliveries: Vec::new(), next_id: 0 };
        assert(waiters_view(r.waiters@) =~= Seq::empty());
        r
    }
    /// Serves the list at `key`, just pushed to, to the waiters on it.
    fn serve_waiters(&mut self, key: &String, now: u64)
        requires
            old(self).wf(),
            holds_list(old(self)@.keys, key@, now),
        ensures
            final(self).wf(),
            final(self)@ == after_push(old(self)@, *key, list_at(old(self)@.keys, key@, now)),
    {
        let ghost s0 = self@;
        let mut items = match self.rdb.take_list(key, now) {
            Ok(v) => v,
            Err(_) => return,
        };
        let ghost l0 = items@;
        let ghost w0 = waiters_view(self.waiters@);
        let ghost d0 = self.deliveries@;
        let ghost mut p: int = 0;
        let ghost mut kept: Seq<(u64, Seq<String>)> = Seq::empty();
        let ghost mut given: Seq<(u64, String, String)> = Seq::empty();
        assert(w0.skip(0) =~= w0);
        assert(kept + w0 =~= w0);
        let mut i: usize = 0;
        while i < self.waiters.len() && items.len() > 0
            invariant
                self.rdb.wf(),
                self.rdb@ == s0.keys.remove(key@),
                !self.rdb@.contains_key(key@),
                0 <= p <= w0.len(),
                i as int == kept.len(),
                waiters_view(self.waiters@) == kept + w0.skip(p),
                self.deliveries@ == d0 + given,
                self.next_id == s0.next_id,
                serve(w0, *key, l0).0 == kept + serve(w0.skip(p), *key, items@).0,
                serve(w0, *key, l0).1 == given + serve(w0.skip(p), *key, items@).1,
                serve(w0, *key, l0).2 == serve(w0.skip(p), *key, items@).2,
            decreases self.waiters@.len() - i,
        {
            let ghost rest = w0.skip(p);
            let ghost its = items@;
            assert(waiters_view(self.waiters@)[i as int] == rest[0]);
            assert(rest.drop_first() =~= w0.skip(p + 1));
            let hit = wants_key(&self.waiters[i].1, key);
            if hit {
                let ghost wold = self.waiters@;
                let (id, _) = self.waiters.remove(i);
                assert(waiters_view(self.waiters@) =~= waiters_view(wold).remove(i as int));
                assert((kept + w0.skip(p)).remove(i as int) =~= kept + w0.skip(p + 1));
                let v = items.remove(0);
                self.deliveries.push((id, key.clone(), v));
                proof {
                    assert(items@ =~= its.drop_first());
                    let ghost r2 = serve(w0.skip(p + 1), *key, items@);
                    assert(serve(rest, *key, its).1 == seq![(rest[0].0, *key, its[0])] + r2.1);
                    assert(given.push((rest[0].0, *key, its[0])) + r2.1 =~= given + (seq![(rest[0].0, *key, its[0])] + r2.1));
                    given = given.push((rest[0].0, *key, its[0]));
                    p = p + 1;
                    assert(waiters_view(self.waiters@) =~= kept + w0.skip(p));
                }
            } else {
                proof {
                    let ghost r2 = serve(w0.skip(p + 1), *key, its);
                    assert(serve(rest, *key, its).0 == seq![rest[0]] + r2.0);
                    assert(kept.push(rest[0]) + r2.0 =~= kept + (seq![rest[0]] + r2.0));
                    kept = kept.push(rest[0]);
                    p = p + 1;
                    assert(waiters_view(self.waiters@) =~= kept + w0.skip(p));
                }
                i = i + 1;
            }
        }
        proof {
            let ghost r = serve(w0.skip(p), *key, items@);
            if items@.len() > 0 {
                assert(w0.skip(p).len() == 0);
            }
            assert(r.0 == w0.skip(p));
            assert(r.1 =~= Seq::<(u64, String, String)>::empty());
            assert(kept + w0.skip(p) == serve(w0, *key, l0).0);
            assert(given =~= given + r.1);
        }
        if items.len() > 0 {
            self.rdb.put_slot(Slot { key: key.clone(), entry: Entry::List { items } });
            assert(self.rdb@ =~= s0.keys.insert(key@, Stored::List(serve(w0, *key, l0).2)));
        } else {
            assert(self.rdb@ =~= s0.keys.remove(key@));
        }
    }
    /// RPUSH / LPUSH.
    fn push_cmd(&mut self, args: &Vec<Value>, now: u64, front: bool) -> (r: Reply)
        requires
            old(self).wf(),
        ensures
            final(self).wf(),
            answers(r, push_step(old(self)@, args@, now, front).0),
            final(self)@ == push_step(old(self)@, args@, now, front).1,
    {
        if args.len() < 2 {
            return fail("ERR wrong number of arguments for push");
        }
        let mut t = match texts_of(args) {
            Some(t) => t,
            None => return fail("ERR arguments must be strings"),
        };
        let ghost tt = t@;
        let ghost s0 = self@;
        let key = t.remove(0);
        assert(t@ =~= tt.skip(1));
        let pushed = if front {
            self.rdb.push_front(&key, t, now)
        } else {
            self.rdb.push_back(&key, t, now)
        };
        match pushed {
            Err(_) => fail("WRONGTYPE Operation against a key holding the wrong kind of value"),
            Ok(n) => {
                let ghost l = list_at(s0.keys, key@, now);
                let ghost list = if front { reversed(tt.skip(1)) + l } else { l + tt.skip(1) };
                assert(self@.keys == s0.keys.insert(key@, Stored::List(list)));
                self.serve_waiters(&key, now);
                proof {
                    let r = serve(s0.waiters, key, list);
                    assert(s0.keys.insert(key@, Stored::List(list)).remove(key@) =~= s0.keys.remove(
                        key@,
                    ));
                    assert(s0.keys.insert(key@, Stored::List(list)).insert(key@, Stored::List(r.2))
                        =~= s0.keys.insert(key@, Stored::List(r.2)));
                }
                Reply::Ready(Value::IntegerString(n))
            },
        }
    }

    /// GET.
    fn get_cmd(&mut self, args: &Vec<Value>, now: u64) -> (r: Reply)
        requires
            old(self).wf(),
        ensures
            final(self).wf(),
            answers(r, get_step(old(self)@, args@, now).0),
            final(self)@ == get_step(old(self)@, args@, now).1,
    {
        if args.len() != 1 {
            return fail("ERR wrong number of arguments for 'get' command");
        }
        let key = match as_text(&args[0]) {
            Some(k) => k,
            None => return fail("ERR key must be a string"),
        };
        match self.rdb.get(&key, now) {
            Ok(Some(v)) => Reply::Ready(Value::BulkString(v)),
            Ok(None) => Reply::Ready(Value::NullBulkString),
            Err(_) => fail("WRONGTYPE Operation against a key holding the wrong kind of value"),
        }
    }

    /// SET.
    fn set_cmd(&mut self, args: &Vec<Value>, now: u64) -> (r: Reply)
        requires
            old(self).wf(),
        ensures
            final(self).wf(),
            answers(r, set_step(old(self)@, args@, now).0),
            final(self)@ == set_step(old(self)@, args@, now).1,
    {
        if args.len() != 2 && args.len() != 4 {
            return fail("ERR syntax error");
        }
        let key = match as_text(&args[0]) {
            Some(k) => k,
            None => return fail("ERR key must be a string"),
        };
        let value = match as_text(&args[1]) {
            Some(v) => v,
            None => return fail("ERR value must be a string"),
        };
        let (unit, amount) = if args.len() == 4 {
            (Some(&args[2]), Some(&args[3]))
        } else {
            (None, None)
        };
        match self.rdb.set(key, value, unit, amount, now) {
            Ok(()) => Reply::Ready(Value::SimpleString("OK".to_owned())),
            Err(_) => fail("ERR invalid expire time in 'set' command"),
        }
    }

    /// LRANGE.
    fn lrange_cmd(&mut self, args: &Vec<Value>, now: u64) -> (r: Reply)
        requires
            old(self).wf(),
        ensures
            final(self).wf(),
            answers(r, lrange_step(old(self)@, args@, now).0),
            final(self)@ == lrange_step(old(self)@, args@, now).1,
    {
        if args.len() != 3 {
            return fail("ERR wrong number of arguments for 'lrange' command");
        }
        let t = match texts_of(args) {
            Some(t) => t,
            None => return fail("ERR arguments must be strings"),
        };
        let start = match parse_i64(t[1].as_str()) {
            Some(v) => v,
            None => return fail("ERR value is not an integer or out of range"),
        };
        let end = match parse_i64(t[2].as_str()) {
            Some(v) => v,
            None => return fail("ERR value is not an integer or out of range"),
        };
        match self.rdb.range(&t[0], start, end, now) {
            Ok(items) => Reply::Ready(bulk_items(&items)),
            Err(_) => fail("WRONGTYPE Operation against a key holding the wrong kind of value"),
        }
    }

    /// LLEN.
    fn llen_cmd(&mut self, args: &Vec<Value>, now: u64) -> (r: Reply)
        requires
            old(self).wf(),
        ensures
            final(self).wf(),
            answers(r, llen_step(old(self)@, args@, now).0),
            final(self)@ == llen_step(old(self)@, args@, now).1,
    {
        if args.len() != 1 {
            return fail("ERR wrong number of arguments for 'llen' command");
        }
        let key = match as_text(&args[0]) {
            Some(k) => k,
            None => return fail("ERR key must be a string"),
        };
        match self.rdb.list_len(&key, now) {
            Ok(n) => Reply::Ready(Value::IntegerString(n)),
            Err(_) => fail("WRONGTYPE Operation against a key holding the wrong kind of value"),
        }
    }

    /// LPOP.
    fn lpop_cmd(&mut self, args: &Vec<Value>, now: u64) -> (r: Reply)
        requires
            old(self).wf(),
        ensures
            final(self).wf(),
            answers(r, lpop_step(old(self)@, args@, now).0),
            final(self)@ == lpop_step(old(self)@, args@, now).1,
    {
        if args.len() < 1 || args.len() > 2 {
            return fail("ERR wrong number of arguments for 'lpop' command");
        }
        let t = match texts_of(args) {
            Some(t) => t,
            None => return fail("ERR arguments must be strings"),
        };
        if args.len() == 1 {
            match self.rdb.pop_front(&t[0], 1, now) {
                Ok(v) => if v.len() == 0 {
                    Reply::Ready(Value::NullBulkString)
                } else {
                    Reply::Ready(Value::BulkString(v[0].clone()))
                },
                Err(_) => fail("WRONGTYPE Operation against a key holding the wrong kind of value"),
            }
        } else {
            let c = match parse_u64(t[1].as_str()) {
                Some(c) => c,
                None => return fail("ERR value is out of range, must be positive"),
            };
            if c > usize::MAX as u64 {
                return fail("ERR value is out of range, must be positive");
            }
            match self.rdb.pop_front(&t[0], c as usize, now) {
                Ok(v) => Reply::Ready(bulk_items(&v)),
                Err(_) => fail("WRONGTYPE Operation against a key holding the wrong kind of value"),
            }
        }
    }

    /// The first of `keys` whose list has an item, if any.
    fn find_ready(&self, keys: &Vec<String>, now: u64) -> (r: Option<usize>)
        requires
            self.wf(),
        ensures
            match r {
                Some(j) => j < keys@.len() && first_ready(self@.keys, keys@, now) == Some(j as int),
                None => first_ready(self@.keys, keys@, now) is None,
            },
    {
        let mut j: usize = 0;
        while j < keys.len()
            invariant
                self.wf(),
                j <= keys@.len(),
                forall|i: int| 0 <= i < j ==> !ready(self@.keys, #[trigger] keys@[i], now),
            decreases keys@.len() - j,
        {
            if self.rdb.peek_len(&keys[j], now) > 0 {
                assert(first_ready_at(self@.keys, keys@, now, j as int));
                proof {
                    let c = choose|c: int| first_ready_at(self@.keys, keys@, now, c);
                    if c < j {
                        assert(!ready(self@.keys, keys@[c], now));
                    }
                    if c > j {
                        assert(!ready(self@.keys, keys@[j as int], now));
                    }
                }
                return Some(j);
            }
            j = j + 1;
        }
        None
    }

    /// BLPOP.
    fn blpop_cmd(&mut self, args: &Vec<Value>, now: u64) -> (r: Reply)
        requires
            old(self).wf(),
        ensures
            final(self).wf(),
            answers(r, blpop_step(old(self)@, args@, now).0),
            final(self)@ == blpop_step(old(self)@, args@, now).1,
    {
        if args.len() < 2 {
            return fail("ERR wrong number of arguments for 'blpop' command");
        }
        let mut keys = match texts_of(args) {
            Some(t) => t,
            None => return fail("ERR arguments must be strings"),
        };
        let ghost tt = keys@;
        let timeout = match keys.pop() {
            Some(t) => t,
            None => return fail("ERR wrong number of arguments for 'blpop' command"),
        };
        assert(keys@ =~= tt.drop_last());
        let ms = match parse_seconds_ms(timeout.as_str()) {
            Some(ms) => ms,
            None => return fail("ERR timeout is not a float or out of range"),
        };
        match self.find_ready(&keys, now) {
            Some(j) => {
                let popped = self.rdb.pop_front(&keys[j], 1, now);
                match popped {
                    Ok(v) => {
                        if v.len() == 0 {
                            return fail("ERR list emptied");
                        }
                        let mut pair: Vec<Value> = Vec::new();
                        pair.push(Value::BulkString(keys[j].clone()));
                        pair.push(Value::BulkString(v[0].clone()));
                        Reply::Ready(Value::Array(pair))
                    },
                    Err(_) => fail("WRONGTYPE Operation against a key holding the wrong kind of value"),
                }
            },
            None => {
                if self.next_id == u64::MAX {
                    return fail("ERR too many waiters");
                }
                let id = self.next_id;
                let ghost w = self.waiters@;
                self.waiters.push((id, keys));
                assert(waiters_view(self.waiters@) =~= waiters_view(w).push((id, tt.drop_last())));
                self.next_id = id + 1;
                let timeout_ms = if ms == 0 {
                    None
                } else {
                    Some(ms)
                };
                Reply::Blocked { id, timeout_ms }
            },
        }
    }

    /// Runs one command at time `now` (in milliseconds): applies it to the
    /// keyspace and the registry of blocking pops, and gives the reply.
    pub fn execute_command(&mut self, cmd: Command, now: u64) -> (r: Reply)
        requires
            old(self).wf(),
        ensures
            final(self).wf(),
            answers(r, step(old(self)@, cmd.command_type, cmd.args@, now).0),
            final(self)@ == step(old(self)@, cmd.command_type, cmd.args@, now).1,
            cmd.command_type == CommandType::Unknown ==> (r matches Reply::Ready(Value::Error(m))
                && m@ == "ERR unknown command"@),
    {
        match cmd.command_type {
            CommandType::Ping => Reply::Ready(Value::SimpleString("PONG".to_owned())),
            CommandType::Echo => {
                if cmd.args.len() == 0 {
                    return fail("ERR wrong number of arguments for 'echo' command");
                }
                let mut args = cmd.args;
                Reply::Ready(args.remove(0))
            },
            CommandType::SetKey => self.set_cmd(&cmd.args, now),
            CommandType::Get => self.get_cmd(&cmd.args, now),
            CommandType::Rpush => self.push_cmd(&cmd.args, now, false),
            CommandType::LPush => self.push_cmd(&cmd.args, now, true),
            CommandType::Lrange => self.lrange_cmd(&cmd.args, now),
            CommandType::LLen => self.llen_cmd(&cmd.args, now),
            CommandType::LPop => self.lpop_cmd(&cmd.args, now),
            CommandType::BLpop => self.blpop_cmd(&cmd.args, now),
            CommandType::Unknown => fail("ERR unknown command"),
        }
    }
    /// Collects the item handed to waiter `id`, if one was.
    pub fn take_delivery(&mut self, id: u64) -> (r: Option<(String, String)>)
        requires
            old(self).wf(),
        ensures
            final(self).wf(),
            final(self)@.keys == old(self)@.keys,
            final(self)@.waiters == old(self)@.waiters,
            final(self)@.next_id == old(self)@.next_id,
            match r {
                Some((k, v)) => exists|j: int|
                    first_delivery(old(self)@.deliveries, id, j) && old(self)@.deliveries[j] == (
                    id,
                    k,
                    v,
                ) && final(self)@.deliveries == old(self)@.deliveries.remove(j),
                None => (forall|j: int|
                    0 <= j < old(self)@.deliveries.len() ==> (#[trigger] old(self)@.deliveries[j]).0
                        != id) && final(self)@.deliveries == old(self)@.deliveries,
            },
    {
        let mut j: usize = 0;
        while j < self.deliveries.len()
            invariant
                j <= self.deliveries@.len(),
                self.wf(),
                self@ == old(self)@,
                forall|i: int| 0 <= i < j ==> (#[trigger] self.deliveries@[i]).0 != id,
            decreases self.deliveries@.len() - j,
        {
            if self.deliveries[j].0 == id {
                let ghost d = self.deliveries@;
                let (_, k, v) = self.deliveries.remove(j);
                assert(d == old(self)@.deliveries);
                assert(first_delivery(d, id, j as int));
                assert(self@.deliveries == d.remove(j as int));
                return Some((k, v));
            }
            j = j + 1;
        }
        None
    }

    /// Gives up the wait of waiter `id`: removes its registration, so that no
    /// push serves it later, and collects an item already handed to it.
    pub fn cancel_wait(&mut self, id: u64) -> (r: Option<(String, String)>)
        requires
            old(self).wf(),
        ensures
            final(self).wf(),
            final(self)@.keys == old(self)@.keys,
            final(self)@.next_id == old(self)@.next_id,
            forall|j: int| 0 <= j < old(self)@.waiters.len() && (#[trigger] old(self)@.waiters[j]).0 != id
                ==> final(self)@.waiters.contains(old(self)@.waiters[j]),
            (exists|j: int| first_waiter(old(self)@.waiters, id, j) && final(self)@.waiters
                == old(self)@.waiters.remove(j)) || ((forall|j: int|
                0 <= j < old(self)@.waiters.len() ==> (#[trigger] old(self)@.waiters[j]).0 != id)
                && final(self)@.waiters == old(self)@.waiters),
            match r {
                Some((k, v)) => exists|j: int|
                    first_delivery(old(self)@.deliveries, id, j) && old(self)@.deliveries[j] == (
                    id,
                    k,
                    v,
                ) && final(self)@.deliveries == old(self)@.deliveries.remove(j),
                None => (forall|j: int|
                    0 <= j < old(self)@.deliveries.len() ==> (#[trigger] old(self)@.deliveries[j]).0
                        != id) && final(self)@.deliveries == old(self)@.deliveries,
            },
    {
        let ghost w0 = waiters_view(self.waiters@);
        let mut j: usize = 0;
        while j < self.waiters.len()
            invariant
                j <= self.waiters@.len(),
                w0 == waiters_view(self.waiters@),
                w0 == old(self)@.waiters,
                self.wf(),
                self@.keys == old(self)@.keys,
                self@.deliveries == old(self)@.deliveries,
                self@.next_id == old(self)@.next_id,
                forall|i: int| 0 <= i < j ==> (#[trigger] self.waiters@[i]).0 != id,
            decreases self.waiters@.len() - j,
        {
            if self.waiters[j].0 == id {
                let ghost w = self.waiters@;
                let _ = self.waiters.remove(j);
                assert(waiters_view(self.waiters@) =~= w0.remove(j as int));
                assert forall|i: int| 0 <= i < j implies (#[trigger] w0[i]).0 != id by {
                    assert(w0[i].0 == w[i].0);
                }
                assert(first_waiter(w0, id, j as int));
                assert forall|a: int| 0 <= a < w0.len() && (#[trigger] w0[a]).0 != id
                    implies waiters_view(self.waiters@).contains(w0[a]) by {
                    if a < j {
                        assert(waiters_view(self.waiters@)[a] == w0[a]);
                    } else {
                        assert(a != j);
                        assert(waiters_view(self.waiters@)[a - 1] == w0[a]);
                    }
                }
                return self.take_delivery(id);
            }
            j = j + 1;
        }
        assert forall|i: int| 0 <= i < w0.len() implies (#[trigger] w0[i]).0 != id by {
            assert(w0[i].0 == self.waiters@[i].0);
        }
        assert forall|a: int| 0 <= a < w0.len() && (#[trigger] w0[a]).0 != id
            implies waiters_view(self.waiters@).contains(w0[a]) by {
            assert(waiters_view(self.waiters@)[a] == w0[a]);
        }
        self.take_delivery(id)
    }
}

} // verus!
