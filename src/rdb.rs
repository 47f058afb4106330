use vstd::prelude::*;
use crate::parse::{parse_u64, u64_of};
use crate::resp::{as_text, text_of, Value};
use vstd::string::StrSliceExecFns;

verus! {

/// Why a store operation refused its input.
#[derive(Debug)]
pub enum RdbError {
    /// The expiry unit or amount given to `set` is malformed.
    InvalidExpiry(String),
    /// The key holds an entry of the other kind (a list where a scalar is
    /// needed, or the reverse).
    WrongType,
}

/// What one key holds, as contracts see it.
pub enum Stored {
    /// A scalar value with its optional absolute expiry, in milliseconds.
    Scalar(String, Option<u64>),
    /// A list, head first.
    List(Seq<String>),
}

/// What one key holds.
pub enum Entry {
    Scalar { value: String, expiry: Option<u64> },
    List { items: Vec<String> },
}

impl View for Entry {
    type V = Stored;

    open spec fn view(&self) -> Stored {
        match self {
            Entry::Scalar { value, expiry } => Stored::Scalar(*value, *expiry),
            Entry::List { items } => Stored::List(items@),
        }
    }
}

/// One key and its entry.
pub struct Slot {
    pub key: String,
    pub entry: Entry,
}

/// True of a scalar whose expiry is at or before `now`: it is logically absent.
pub open spec fn expired(e: Stored, now: u64) -> bool {
    match e {
        Stored::Scalar(_, Some(t)) => t <= now,
        _ => false,
    }
}

/// The entry at `k` as a reader at time `now` sees it.
pub open spec fn live(m: Map<Seq<char>, Stored>, k: Seq<char>, now: u64) -> Option<Stored> {
    if m.contains_key(k) && !expired(m[k], now) {
        Some(m[k])
    } else {
        None
    }
}

/// The keyspace once an access at time `now` has dropped an expired entry at `k`.
pub open spec fn purge(m: Map<Seq<char>, Stored>, k: Seq<char>, now: u64) -> Map<Seq<char>, Stored> {
    if m.contains_key(k) && expired(m[k], now) {
        m.remove(k)
    } else {
        m
    }
}

/// The list at `k` at time `now`; empty where no list is there.
pub open spec fn list_at(m: Map<Seq<char>, Stored>, k: Seq<char>, now: u64) -> Seq<String> {
    match live(m, k, now) {
        Some(Stored::List(s)) => s,
        _ => Seq::empty(),
    }
}

/// True where `k` holds a scalar that has not expired at `now`.
pub open spec fn holds_scalar(m: Map<Seq<char>, Stored>, k: Seq<char>, now: u64) -> bool {
    live(m, k, now) matches Some(Stored::Scalar(_, _))
}

/// True where `k` holds a list.
pub open spec fn holds_list(m: Map<Seq<char>, Stored>, k: Seq<char>, now: u64) -> bool {
    live(m, k, now) matches Some(Stored::List(_))
}

/// True where `unit` spells the two letters `lo`/`up` then `x`, in either case.
pub open spec fn unit_is(unit: Seq<char>, lo: char, up: char) -> bool {
    unit.len() == 2 && (unit[0] == lo || unit[0] == up) && (unit[1] == 'x' || unit[1] == 'X')
}

/// The absolute expiry, in milliseconds, of a value set at `now` with the
/// given unit (`EX` for seconds, `PX` for milliseconds) and amount; `None`
/// where the unit is unknown, the amount is not a numeral, or the
/// expiry does not fit in a `u64`.
pub open spec fn deadline(unit: Seq<char>, amount: Seq<char>, now: u64) -> Option<u64> {
    match u64_of(amount) {
        Some(n) => {
            let ms: int = if unit_is(unit, 'e', 'E') { n * 1000 } else { n as int };
            if !(unit_is(unit, 'e', 'E') || unit_is(unit, 'p', 'P')) || now + ms
                > u64::MAX {
                None
            } else {
                Some((now + ms) as u64)
            }
        },
        None => None,
    }
}

/// The expiry that `set` gives a value: `Some(None)` for none, `Some(Some(t))`
/// for an expiry at `t`, `None` where the unit and amount are malformed.
pub open spec fn expiry_for(unit: Option<Value>, amount: Option<Value>, now: u64) -> Option<
    Option<u64>,
> {
    match (unit, amount) {
        (None, None) => Some(None),
        (Some(u), Some(a)) => match (text_of(u), text_of(a)) {
            (Some(us), Some(am)) => match deadline(us@, am@, now) {
                Some(t) => Some(Some(t)),
                None => None,
            },
            _ => None,
        },
        _ => None,
    }
}

/// The value a reference option points to.
pub open spec fn deref_opt(o: Option<&Value>) -> Option<Value> {
    match o {
        Some(v) => Some(*v),
        None => None,
    }
}

/// The inclusive slice `[start, end]` of `s`, negative indices counting from
/// the tail, clamped to the list.
pub open spec fn range_of(s: Seq<String>, start: int, end: int) -> Seq<String> {
    let len = s.len() as int;
    let a = if start < 0 { start + len } else { start };
    let b = if end < 0 { end + len } else { end };
    let a2 = if a < 0 { 0 } else { a };
    let b2 = if b > len - 1 { len - 1 } else { b };
    if a2 > b2 || a2 >= len {
        Seq::empty()
    } else {
        s.subrange(a2, b2 + 1)
    }
}

/// `s` back to front.
pub open spec fn reversed(s: Seq<String>) -> Seq<String> {
    Seq::new(s.len(), |i: int| s[s.len() - 1 - i])
}

/// The keyspace after the first `n` items of the list at `k` were removed: a
/// list left empty is dropped.
pub open spec fn after_pop(m: Map<Seq<char>, Stored>, k: Seq<char>, now: u64, n: int) -> Map<
    Seq<char>,
    Stored,
> {
    let l = list_at(m, k, now);
    if l.len() <= n {
        purge(m, k, now).remove(k)
    } else {
        purge(m, k, now).insert(k, Stored::List(l.skip(n)))
    }
}

/// The keyspace: one entry per key, scalars and lists sharing one namespace.
///
/// The entries stand in a vector with unique keys rather than a hash map:
/// vstd gives a hash map a model only for keys of integer type, so with
/// `String` keys no contract over the map could be proved.
pub struct Rdb {
    slots: Vec<Slot>,
    model: Ghost<Map<Seq<char>, Stored>>,
}

impl View for Rdb {
    type V = Map<Seq<char>, Stored>;

    closed spec fn view(&self) -> Map<Seq<char>, Stored> {
        self.model@
    }
}

impl Rdb {
    /// The slots hold exactly the keyspace, one slot per key.
    pub closed spec fn wf(&self) -> bool {
        &&& forall|i: int|
            0 <= i < self.slots@.len() ==> #[trigger] self.model@.contains_key(self.slots@[i].key@)
                && self.model@[self.slots@[i].key@] == self.slots@[i].entry@
        &&& forall|k: Seq<char>|
            #[trigger] self.model@.contains_key(k) ==> exists|i: int|
                0 <= i < self.slots@.len() && #[trigger] self.slots@[i].key@ == k
        &&& forall|i: int, j: int|
            0 <= i < self.slots@.len() && 0 <= j < self.slots@.len() && i != j
                ==> #[trigger] self.slots@[i].key@ != #[trigger] self.slots@[j].key@
    }

    /// An empty keyspace.
    pub fn new() -> (r: Rdb)
        ensures
            r.wf(),
            r@ == Map::<Seq<char>, Stored>::empty(),
    {
        Rdb { slots: Vec::new(), model: Ghost(Map::empty()) }
    }

    /// The index of the slot for `key`, if there is one.
    fn find(&self, key: &String) -> (r: Option<usize>)
        requires
            self.wf(),
        ensures
            match r {
                Some(i) => i < self.slots@.len() && self.slots@[i as int].key@ == key@
                    && self@.contains_key(key@),
                None => !self@.contains_key(key@),
            },
    {
        let mut i: usize = 0;
        while i < self.slots.len()
            invariant
                self.wf(),
                i <= self.slots@.len(),
                forall|j: int| 0 <= j < i ==> self.slots@[j].key@ != key@,
            decreases self.slots@.len() - i,
        {
            if self.slots[i].key == *key {
                return Some(i);
            }
            i = i + 1;
        }
        None
    }

    /// Takes the slot at index `i` out of the keyspace.
    fn take_slot(&mut self, i: usize) -> (r: Slot)
        requires
            old(self).wf(),
            i < old(self).slots@.len(),
        ensures
            final(self).wf(),
            r == old(self).slots@[i as int],
            final(self)@ == old(self)@.remove(r.key@),
    {
        let ghost k = self.slots@[i as int].key@;
        let ghost old_slots = self.slots@;
        let ghost old_model = self.model@;
        let r = self.slots.remove(i);
        self.model = Ghost(self.model@.remove(k));
        assert forall|kk: Seq<char>| #[trigger] self.model@.contains_key(kk) implies exists|j: int|
            0 <= j < self.slots@.len() && #[trigger] self.slots@[j].key@ == kk by {
            let j0 = choose|j: int| 0 <= j < old_slots.len() && #[trigger] old_slots[j].key@ == kk;
            if j0 < i {
                assert(self.slots@[j0].key@ == kk);
            } else {
                assert(j0 != i);
                assert(self.slots@[j0 - 1].key@ == kk);
            }
        }
        assert forall|a: int, b: int|
            0 <= a < self.slots@.len() && 0 <= b < self.slots@.len() && a != b
                implies #[trigger] self.slots@[a].key@ != #[trigger] self.slots@[b].key@ by {
            let a0 = if a < i { a } else { a + 1 };
            let b0 = if b < i { b } else { b + 1 };
            assert(self.slots@[a] == old_slots[a0]);
            assert(self.slots@[b] == old_slots[b0]);
        }
        assert forall|a: int| 0 <= a < self.slots@.len() implies #[trigger] self.model@.contains_key(
            self.slots@[a].key@,
        ) && self.model@[self.slots@[a].key@] == self.slots@[a].entry@ by {
            let a0 = if a < i { a } else { a + 1 };
            assert(self.slots@[a] == old_slots[a0]);
            assert(old_slots[a0].key@ != k);
            assert(old_model.contains_key(old_slots[a0].key@));
        }
        r
    }

    /// Adds a slot for a key that the keyspace does not hold.
    pub(crate) fn put_slot(&mut self, s: Slot)
        requires
            old(self).wf(),
            !old(self)@.contains_key(s.key@),
        ensures
            final(self).wf(),
            final(self)@ == old(self)@.insert(s.key@, s.entry@),
    {
        let ghost k = s.key@;
        let ghost e = s.entry@;
        let ghost old_slots = self.slots@;
        self.slots.push(s);
        self.model = Ghost(self.model@.insert(k, e));
        assert forall|kk: Seq<char>| #[trigger] self.model@.contains_key(kk) implies exists|j: int|
            0 <= j < self.slots@.len() && #[trigger] self.slots@[j].key@ == kk by {
            if kk == k {
                assert(self.slots@[old_slots.len() as int].key@ == kk);
            } else {
                let j0 = choose|j: int| 0 <= j < old_slots.len() && #[trigger] old_slots[j].key@ == kk;
                assert(self.slots@[j0].key@ == kk);
            }
        }
        assert forall|a: int, b: int|
            0 <= a < self.slots@.len() && 0 <= b < self.slots@.len() && a != b
                implies #[trigger] self.slots@[a].key@ != #[trigger] self.slots@[b].key@ by {
            if a < old_slots.len() {
                assert(self.slots@[a] == old_slots[a]);
            }
            if b < old_slots.len() {
                assert(self.slots@[b] == old_slots[b]);
            }
        }
        assert forall|a: int| 0 <= a < self.slots@.len() implies #[trigger] self.model@.contains_key(
            self.slots@[a].key@,
        ) && self.model@[self.slots@[a].key@] == self.slots@[a].entry@ by {
            if a < old_slots.len() {
                assert(self.slots@[a] == old_slots[a]);
            }
        }
    }

    /// Drops an expired entry at `key`, then gives the index of the entry that
    /// remains there, if any.
    fn observe(&mut self, key: &String, now: u64) -> (r: Option<usize>)
        requires
            old(self).wf(),
        ensures
            final(self).wf(),
            final(self)@ == purge(old(self)@, key@, now),
            match r {
                Some(i) => i < final(self).slots@.len() && final(self).slots@[i as int].key@ == key@
                    && final(self)@.contains_key(key@) && live(old(self)@, key@, now) == Some(
                    final(self)@[key@],
                ),
                None => !final(self)@.contains_key(key@) && live(old(self)@, key@, now).is_none(),
            },
    {
        match self.find(key) {
            None => None,
            Some(i) => {
                let is_expired = match &self.slots[i].entry {
                    Entry::Scalar { expiry: Some(t), .. } => *t <= now,
                    _ => false,
                };
                if is_expired {
                    let _ = self.take_slot(i);
                    None
                } else {
                    Some(i)
                }
            },
        }
    }
    /// Reads the scalar at `key`. An expired one is deleted and reads as absent;
    /// a list there is a type error.
    pub fn get(&mut self, key: &String, now: u64) -> (r: Result<Option<String>, RdbError>)
        requires
            old(self).wf(),
        ensures
            final(self).wf(),
            final(self)@ == purge(old(self)@, key@, now),
            match live(old(self)@, key@, now) {
                None => r matches Ok(None),
                Some(Stored::Scalar(v, _)) => r matches Ok(Some(w)) && w == v,
                Some(Stored::List(_)) => r matches Err(RdbError::WrongType),
            },
    {
        match self.observe(key, now) {
            None => Ok(None),
            Some(i) => {
                assert(self.model@.contains_key(self.slots@[i as int].key@));
                match &self.slots[i].entry {
                    Entry::Scalar { value, .. } => Ok(Some(value.clone())),
                    Entry::List { .. } => Err(RdbError::WrongType),
                }
            },
        }
    }

    /// Stores `value` at `key` with the given expiry, replacing whatever the
    /// key held.
    pub fn put_scalar(&mut self, key: String, value: String, expiry: Option<u64>)
        requires
            old(self).wf(),
        ensures
            final(self).wf(),
            final(self)@ == old(self)@.insert(key@, Stored::Scalar(value, expiry)),
    {
        let ghost m0 = self@;
        match self.find(&key) {
            Some(i) => {
                let _ = self.take_slot(i);
            },
            None => {},
        }
        let ghost k = key@;
        self.put_slot(Slot { key, entry: Entry::Scalar { value, expiry } });
        assert(self@ =~= m0.insert(k, Stored::Scalar(value, expiry)));
    }

    /// Sets `key` to `value`, with an expiry read from a unit (`EX` seconds or
    /// `PX` milliseconds, in either case) and an amount, counted from `now`.
    /// A malformed or partial expiry is refused and changes nothing.
    pub fn set(
        &mut self,
        key: String,
        value: String,
        expiry_type: Option<&Value>,
        expiry_value: Option<&Value>,
        now: u64,
    ) -> (r: Result<(), RdbError>)
        requires
            old(self).wf(),
        ensures
            final(self).wf(),
            match expiry_for(deref_opt(expiry_type), deref_opt(expiry_value), now) {
                Some(e) => r is Ok && final(self)@ == old(self)@.insert(key@, Stored::Scalar(value, e)),
                None => r matches Err(RdbError::InvalidExpiry(_)) && final(self)@ == old(self)@,
            },
    {
        let expiry = match (expiry_type, expiry_value) {
            (None, None) => None,
            (Some(u), Some(a)) => {
                let unit = match as_text(u) {
                    Some(t) => t,
                    None => {
                        return Err(RdbError::InvalidExpiry("expiry unit must be a string".to_string()));
                    },
                };
                let amount = match as_text(a) {
                    Some(t) => t,
                    None => {
                        return Err(RdbError::InvalidExpiry("expiry amount must be a string".to_string()));
                    },
                };
                match expiry_deadline(&unit, &amount, now) {
                    Some(t) => Some(t),
                    None => {
                        return Err(RdbError::InvalidExpiry("invalid expire time".to_string()));
                    },
                }
            },
            _ => {
                return Err(RdbError::InvalidExpiry("expiry needs a unit and an amount".to_string()));
            },
        };
        self.put_scalar(key, value, expiry);
        Ok(())
    }

    /// Appends `values`, in order, to the tail of the list at `key`, creating
    /// it if needed; gives the new length. A scalar there is a type error.
    pub fn push_back(&mut self, key: &String, values: Vec<String>, now: u64) -> (r: Result<
        usize,
        RdbError,
    >)
        requires
            old(self).wf(),
        ensures
            final(self).wf(),
            holds_scalar(old(self)@, key@, now) ==> (r matches Err(RdbError::WrongType)
                && final(self)@ == old(self)@),
            !holds_scalar(old(self)@, key@, now) ==> (r matches Ok(n) && n == list_at(
                old(self)@,
                key@,
                now,
            ).len() + values@.len() && final(self)@ == old(self)@.insert(
                key@,
                Stored::List(list_at(old(self)@, key@, now) + values@),
            )),
    {
        let ghost vals = values@;
        let mut values = values;
        let ghost m0 = self@;
        let mut items = self.take_list(key, now)?;
        items.append(&mut values);
        let n = items.len();
        self.put_slot(Slot { key: key.clone(), entry: Entry::List { items } });
        proof {
            assert(self@ =~= m0.insert(key@, Stored::List(list_at(m0, key@, now) + vals)));
        }
        Ok(n)
    }

    /// Inserts `values` one by one at the head of the list at `key`, creating
    /// it if needed, so that the last of them ends at the head; gives the new
    /// length. A scalar there is a type error.
    pub fn push_front(&mut self, key: &String, values: Vec<String>, now: u64) -> (r: Result<
        usize,
        RdbError,
    >)
        requires
            old(self).wf(),
        ensures
            final(self).wf(),
            holds_scalar(old(self)@, key@, now) ==> (r matches Err(RdbError::WrongType)
                && final(self)@ == old(self)@),
            !holds_scalar(old(self)@, key@, now) ==> (r matches Ok(n) && n == list_at(
                old(self)@,
                key@,
                now,
            ).len() + values@.len() && final(self)@ == old(self)@.insert(
                key@,
                Stored::List(reversed(values@) + list_at(old(self)@, key@, now)),
            )),
    {
        let ghost m0 = self@;
        let ghost vals = values@;
        let mut items = self.take_list(key, now)?;
        let mut values = values;
        let mut front: Vec<String> = Vec::new();
        while values.len() > 0
            invariant
                values@ == vals.subrange(0, vals.len() - front@.len()),
                front@ == reversed(vals).subrange(0, front@.len() as int),
                front@.len() <= vals.len(),
            decreases values@.len(),
        {
            let ghost before = values@;
            match values.pop() {
                Some(v) => {
                    front.push(v);
                },
                None => {},
            }
            assert(values@ =~= vals.subrange(0, vals.len() - front@.len()));
            assert(front@ =~= reversed(vals).subrange(0, front@.len() as int));
        }
        assert(front@ =~= reversed(vals));
        front.append(&mut items);
        let n = front.len();
        self.put_slot(Slot { key: key.clone(), entry: Entry::List { items: front } });
        proof {
            assert(self@ =~= m0.insert(key@, Stored::List(reversed(vals) + list_at(m0, key@, now))));
        }
        Ok(n)
    }

    /// Removes up to `count` items from the head of the list at `key` and
    /// gives them in order; a list left empty is dropped. A scalar there is a
    /// type error.
    pub fn pop_front(&mut self, key: &String, count: usize, now: u64) -> (r: Result<
        Vec<String>,
        RdbError,
    >)
        requires
            old(self).wf(),
        ensures
            final(self).wf(),
            holds_scalar(old(self)@, key@, now) ==> (r matches Err(RdbError::WrongType)
                && final(self)@ == old(self)@),
            !holds_scalar(old(self)@, key@, now) ==> (r matches Ok(v) && v@ == list_at(
                old(self)@,
                key@,
                now,
            ).take(
                if count < list_at(old(self)@, key@, now).len() { count as int } else {
                    list_at(old(self)@, key@, now).len() as int
                },
            ) && final(self)@ == after_pop(old(self)@, key@, now, count as int)),
    {
        let ghost m0 = self@;
        let ghost l = list_at(m0, key@, now);
        let mut items = self.take_list(key, now)?;
        let n = if count < items.len() { count } else { items.len() };
        let rest = items.split_off(n);
        if rest.len() > 0 {
            self.put_slot(Slot { key: key.clone(), entry: Entry::List { items: rest } });
        }
        proof {
            assert(items@ =~= l.take(n as int));
            if l.len() > count {
                assert(self@ =~= purge(m0, key@, now).insert(key@, Stored::List(l.skip(count as int))));
            }
        }
        Ok(items)
    }

    /// The items of the list at `key` from `start` to `end` inclusive, negative
    /// indices counting from the tail. A scalar there is a type error.
    pub fn range(&mut self, key: &String, start: i64, end: i64, now: u64) -> (r: Result<
        Vec<String>,
        RdbError,
    >)
        requires
            old(self).wf(),
        ensures
            final(self).wf(),
            final(self)@ == purge(old(self)@, key@, now),
            holds_scalar(old(self)@, key@, now) ==> r matches Err(RdbError::WrongType),
            !holds_scalar(old(self)@, key@, now) ==> (r matches Ok(v) && v@ == range_of(
                list_at(old(self)@, key@, now),
                start as int,
                end as int,
            )),
    {
        let i = match self.observe(key, now) {
            None => return Ok(Vec::new()),
            Some(i) => i,
        };
        assert(self.model@.contains_key(self.slots@[i as int].key@));
        let items = match &self.slots[i].entry {
            Entry::List { items } => items,
            Entry::Scalar { .. } => return Err(RdbError::WrongType),
        };
        let len = items.len() as i128;
        let a: i128 = if start < 0 { start as i128 + len } else { start as i128 };
        let b: i128 = if end < 0 { end as i128 + len } else { end as i128 };
        let a2: i128 = if a < 0 { 0 } else { a };
        let b2: i128 = if b > len - 1 { len - 1 } else { b };
        let mut out: Vec<String> = Vec::new();
        if a2 > b2 || a2 >= len {
            return Ok(out);
        }
        let lo = a2 as usize;
        let hi = b2 as usize;
        let ilen = items.len();
        let mut j: usize = lo;
        while j <= hi
            invariant
                lo <= j <= hi + 1,
                ilen == items@.len(),
                hi < ilen,
                out@ == items@.subrange(lo as int, j as int),
            decreases hi + 1 - j,
        {
            out.push(items[j].clone());
            assert(out@ =~= items@.subrange(lo as int, j + 1));
            j = j + 1;
        }
        Ok(out)
    }

    /// The length of the list at `key`, 0 where there is none. A scalar there
    /// is a type error.
    pub fn list_len(&mut self, key: &String, now: u64) -> (r: Result<usize, RdbError>)
        requires
            old(self).wf(),
        ensures
            final(self).wf(),
            final(self)@ == purge(old(self)@, key@, now),
            holds_scalar(old(self)@, key@, now) ==> r matches Err(RdbError::WrongType),
            !holds_scalar(old(self)@, key@, now) ==> (r matches Ok(n) && n == list_at(
                old(self)@,
                key@,
                now,
            ).len()),
    {
        match self.observe(key, now) {
            None => Ok(0),
            Some(i) => {
                assert(self.model@.contains_key(self.slots@[i as int].key@));
                match &self.slots[i].entry {
                    Entry::List { items } => Ok(items.len()),
                    Entry::Scalar { .. } => Err(RdbError::WrongType),
                }
            },
        }
    }

    /// The length of the list at `key` at time `now`, 0 where there is none;
    /// changes nothing.
    pub fn peek_len(&self, key: &String, now: u64) -> (r: usize)
        requires
            self.wf(),
        ensures
            r == list_at(self@, key@, now).len(),
    {
        match self.find(key) {
            None => 0,
            Some(i) => {
                assert(self.model@.contains_key(self.slots@[i as int].key@));
                match &self.slots[i].entry {
                    Entry::List { items } => items.len(),
                    Entry::Scalar { .. } => 0,
                }
            },
        }
    }

    /// Takes the list at `key` out of the keyspace (an empty one where there is
    /// none); a scalar there is a type error and stays.
    pub(crate) fn take_list(&mut self, key: &String, now: u64) -> (r: Result<Vec<String>, RdbError>)
        requires
            old(self).wf(),
        ensures
            final(self).wf(),
            holds_scalar(old(self)@, key@, now) ==> (r matches Err(RdbError::WrongType)
                && final(self)@ == old(self)@),
            !holds_scalar(old(self)@, key@, now) ==> (r matches Ok(v) && v@ == list_at(
                old(self)@,
                key@,
                now,
            ) && final(self)@ == purge(old(self)@, key@, now).remove(key@) && !final(self)@.contains_key(key@)),
    {
        match self.observe(key, now) {
            None => {
                assert(self@.remove(key@) =~= self@);
                Ok(Vec::new())
            },
            Some(i) => {
                assert(self.model@.contains_key(self.slots@[i as int].key@));
                if let Entry::Scalar { .. } = &self.slots[i].entry {
                    return Err(RdbError::WrongType);
                }
                let slot = self.take_slot(i);
                match slot.entry {
                    Entry::List { items } => Ok(items),
                    Entry::Scalar { .. } => Ok(Vec::new()),
                }
            },
        }
    }
}

/// Reads an expiry unit and amount into an absolute expiry.
pub fn expiry_deadline(unit: &String, amount: &String, now: u64) -> (r: Option<u64>)
    ensures
        r == deadline(unit@, amount@, now),
{
    let n = match parse_u64(amount.as_str()) {
        Some(n) => n,
        None => return None,
    };
    let u = unit.as_str();
    let ulen = u.unicode_len();
    if ulen != 2 {
        return None;
    }
    let c0 = u.get_char(0);
    let c1 = u.get_char(1);
    if c1 != 'x' && c1 != 'X' {
        return None;
    }
    let ms: u128 = if c0 == 'e' || c0 == 'E' {
        n as u128 * 1000
    } else if c0 == 'p' || c0 == 'P' {
        n as u128
    } else {
        return None;
    };
    let t: u128 = now as u128 + ms;
    if t > u64::MAX as u128 {
        None
    } else {
        Some(t as u64)
    }
}

} // verus!
