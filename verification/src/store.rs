//! The bill store: a mapping from a bill's name to its record.
//!
//! A [`Bills`] value is a list of records whose names are pairwise distinct,
//! so the name serves as the unique key. Its view is the sequence of records
//! in listing order; [`as_map`] gives the order-free mapping that the
//! operations are really about, and the public lemmas at the end state the
//! store's laws over that mapping.

use vstd::prelude::*;

verus! {

/// The mathematical content of one bill: its name and the decimal text of
/// its amount.
pub ghost struct BillView {
    pub name: Seq<char>,
    pub amount: Seq<char>,
}

/// One managed record: a name, which serves as the unique key, and the
/// amount's decimal text.
pub struct Bill {
    name: String,
    amount: String,
}

impl View for Bill {
    type V = BillView;

    closed spec fn view(&self) -> BillView {
        BillView { name: self.name@, amount: self.amount@ }
    }
}

impl Bill {
    /// A bill with the given name and amount text.
    pub fn new(name: String, amount: String) -> (r: Bill)
        ensures
            r@ == (BillView { name: name@, amount: amount@ }),
    {
        Bill { name, amount }
    }

    /// The bill's name.
    pub fn name(&self) -> (r: &str)
        ensures
            r@ == self@.name,
    {
        self.name.as_str()
    }

    /// The amount's decimal text.
    pub fn amount(&self) -> (r: &str)
        ensures
            r@ == self@.amount,
    {
        self.amount.as_str()
    }

    /// The single listing line for this bill: its name, then its amount.
    pub fn line(&self) -> (r: String)
        ensures
            r@ == bill_line(self@),
    {
        let mut r = String::from_str("name:\"");
        r.append(self.name.as_str());
        r.append("\", amount:");
        r.append(self.amount.as_str());
        proof {
            assert(r@ =~= bill_line(self@));
        }
        r
    }
}

impl Clone for Bill {
    fn clone(&self) -> (r: Self)
        ensures
            r@ == self@,
    {
        Bill { name: self.name.clone(), amount: self.amount.clone() }
    }
}

/// The text of the listing line for one record.
pub open spec fn bill_line(b: BillView) -> Seq<char> {
    "name:\""@ + b.name + "\", amount:"@ + b.amount
}

/// Whether some record in `s` is named `n`.
pub open spec fn has_name(s: Seq<BillView>, n: Seq<char>) -> bool {
    exists|i: int| 0 <= i < s.len() && s[i].name == n
}

/// No two records in `s` share a name.
pub open spec fn distinct_names(s: Seq<BillView>) -> bool {
    forall|x: int, y: int| 0 <= x < y < s.len() ==> s[x].name != s[y].name
}

/// `s` with `b` inserted: the record named `b.name` is replaced in place if
/// present, and appended otherwise.
pub open spec fn upsert(s: Seq<BillView>, b: BillView) -> Seq<BillView>
    decreases s.len(),
{
    if s.len() == 0 {
        seq![b]
    } else if s[0].name == b.name {
        seq![b] + s.skip(1)
    } else {
        seq![s[0]] + upsert(s.skip(1), b)
    }
}

/// `s` with the first record named `n` removed, if there is one.
pub open spec fn del(s: Seq<BillView>, n: Seq<char>) -> Seq<BillView>
    decreases s.len(),
{
    if s.len() == 0 {
        s
    } else if s[0].name == n {
        s.skip(1)
    } else {
        seq![s[0]] + del(s.skip(1), n)
    }
}

/// `s` with the amount of the first record named `n` set to `a`, if there is
/// one.
pub open spec fn set_amount(s: Seq<BillView>, n: Seq<char>, a: Seq<char>) -> Seq<BillView>
    decreases s.len(),
{
    if s.len() == 0 {
        s
    } else if s[0].name == n {
        seq![BillView { name: n, amount: a }] + s.skip(1)
    } else {
        seq![s[0]] + set_amount(s.skip(1), n, a)
    }
}

/// The mapping from name to amount that `s` holds. Where names repeat, the
/// earliest record wins; under [`distinct_names`] they never do.
pub open spec fn as_map(s: Seq<BillView>) -> Map<Seq<char>, Seq<char>>
    decreases s.len(),
{
    if s.len() == 0 {
        Map::empty()
    } else {
        as_map(s.skip(1)).insert(s[0].name, s[0].amount)
    }
}

/// The views of a sequence of records, in the same order.
pub open spec fn bill_views(s: Seq<Bill>) -> Seq<BillView> {
    s.map_values(|b: Bill| b@)
}

/// The in-memory store of bills, keyed by name.
pub struct Bills {
    list: Vec<Bill>,
}

impl View for Bills {
    type V = Seq<BillView>;

    closed spec fn view(&self) -> Seq<BillView> {
        bill_views(self.list@)
    }
}

impl Bills {
    /// The store's invariant: names are pairwise distinct.
    pub open spec fn wf(&self) -> bool {
        distinct_names(self@)
    }

    /// An empty store.
    pub fn new() -> (r: Bills)
        ensures
            r@ == Seq::<BillView>::empty(),
            r.wf(),
    {
        let r = Bills { list: Vec::new() };
        proof {
            assert(r@ =~= Seq::<BillView>::empty());
        }
        r
    }

    /// Inserts `bill`, replacing any record of the same name; an add always
    /// succeeds.
    #[verifier::loop_isolation(false)]
    pub fn add(&mut self, bill: Bill)
        requires
            old(self).wf(),
        ensures
            final(self).wf(),
            final(self)@ == upsert(old(self)@, bill@),
    {
        let ghost s0 = self@;
        let n = self.list.len();
        let mut j: usize = 0;
        while j < n
            invariant
                j <= n,
                n == self.list.len(),
                self@ == s0,
                forall|k: int| 0 <= k < j ==> s0[k].name != bill@.name,
            decreases n - j,
        {
            if self.list[j].name == bill.name {
                proof {
                    lemma_upsert_found(s0, bill@, j as int);
                }
                let ghost bv = bill@;
                self.list[j] = bill;
                proof {
                    assert(self@ =~= s0.update(j as int, bv));
                    assert(s0[j as int].name == bv.name);
                    assert forall|x: int, y: int|
                        0 <= x < y < self@.len() implies self@[x].name != self@[y].name by {
                        assert(s0[x].name != s0[y].name);
                    }
                }
                return ;
            }
            j = j + 1;
        }
        proof {
            lemma_upsert_absent(s0, bill@);
        }
        let ghost bv = bill@;
        self.list.push(bill);
        proof {
            assert(self@ =~= s0.push(bv));
        }
    }

    /// Deletes the record named `name` if present; reports whether one was.
    #[verifier::loop_isolation(false)]
    pub fn remove(&mut self, name: &str) -> (r: bool)
        requires
            old(self).wf(),
        ensures
            final(self).wf(),
            r == has_name(old(self)@, name@),
            final(self)@ == del(old(self)@, name@),
    {
        let ghost s0 = self@;
        let key = name.to_owned();
        let n = self.list.len();
        let mut j: usize = 0;
        while j < n
            invariant
                j <= n,
                n == self.list.len(),
                self@ == s0,
                key@ == name@,
                forall|k: int| 0 <= k < j ==> s0[k].name != name@,
            decreases n - j,
        {
            if self.list[j].name == key {
                proof {
                    lemma_del_found(s0, name@, j as int);
                }
                self.list.remove(j);
                proof {
                    assert(self@ =~= s0.remove(j as int));
                    assert(0 <= j < s0.len() && s0[j as int].name == name@);
                    assert(has_name(s0, name@));
                }
                return true;
            }
            j = j + 1;
        }
        proof {
            lemma_del_absent(s0, name@);
        }
        false
    }

    /// Sets the amount of the record named `name` to `amount` if present and
    /// reports whether one was; an absent name leaves the store unchanged and
    /// never creates a record.
    #[verifier::loop_isolation(false)]
    pub fn update(&mut self, name: &str, amount: String) -> (r: bool)
        requires
            old(self).wf(),
        ensures
            final(self).wf(),
            r == has_name(old(self)@, name@),
            final(self)@ == set_amount(old(self)@, name@, amount@),
    {
        let ghost s0 = self@;
        let key = name.to_owned();
        let n = self.list.len();
        let mut j: usize = 0;
        while j < n
            invariant
                j <= n,
                n == self.list.len(),
                self@ == s0,
                key@ == name@,
                forall|k: int| 0 <= k < j ==> s0[k].name != name@,
            decreases n - j,
        {
            if self.list[j].name == key {
                proof {
                    lemma_set_amount_found(s0, name@, amount@, j as int);
                }
                let ghost av = amount@;
                self.list[j] = Bill { name: key, amount };
                proof {
                    assert(self@ =~= s0.update(j as int, BillView { name: name@, amount: av }));
                    assert(0 <= j < s0.len() && s0[j as int].name == name@);
                    assert(has_name(s0, name@));
                    assert forall|x: int, y: int|
                        0 <= x < y < self@.len() implies self@[x].name != self@[y].name by {
                        assert(s0[x].name != s0[y].name);
                    }
                }
                return true;
            }
            j = j + 1;
        }
        proof {
            lemma_set_amount_absent(s0, name@);
        }
        false
    }

    /// Every current record, as a snapshot; the order carries no meaning.
    #[verifier::loop_isolation(false)]
    pub fn get_all(&self) -> (r: Vec<Bill>)
        ensures
            bill_views(r@) == self@,
    {
        let n = self.list.len();
        let mut r: Vec<Bill> = Vec::new();
        let mut j: usize = 0;
        while j < n
            invariant
                j <= n,
                n == self.list.len(),
                bill_views(r@) =~= self@.take(j as int),
            decreases n - j,
        {
            let b = self.list[j].clone();
            r.push(b);
            proof {
                assert(bill_views(r@) =~= self@.take(j + 1));
            }
            j = j + 1;
        }
        proof {
            assert(self@.take(n as int) =~= self@);
        }
        r
    }
}

/// Replacing the first record named `b.name` in place is what `upsert` does
/// when the earlier records are named otherwise.
proof fn lemma_upsert_found(s: Seq<BillView>, b: BillView, j: int)
    requires
        0 <= j < s.len(),
        s[j].name == b.name,
        forall|k: int| 0 <= k < j ==> s[k].name != b.name,
    ensures
        upsert(s, b) == s.update(j, b),
    decreases j,
{
    if j == 0 {
        assert(upsert(s, b) =~= s.update(0, b));
    } else {
        lemma_upsert_found(s.skip(1), b, j - 1);
        assert(seq![s[0]] + s.skip(1).update(j - 1, b) =~= s.update(j, b));
    }
}

/// Appending is what `upsert` does when no record has the new name.
proof fn lemma_upsert_absent(s: Seq<BillView>, b: BillView)
    requires
        forall|k: int| 0 <= k < s.len() ==> s[k].name != b.name,
    ensures
        upsert(s, b) == s.push(b),
    decreases s.len(),
{
    if s.len() == 0 {
        assert(upsert(s, b) =~= s.push(b));
    } else {
        lemma_upsert_absent(s.skip(1), b);
        assert(seq![s[0]] + s.skip(1).push(b) =~= s.push(b));
    }
}

/// Removing the first record named `n` is what `del` does when the earlier
/// records are named otherwise.
proof fn lemma_del_found(s: Seq<BillView>, n: Seq<char>, j: int)
    requires
        0 <= j < s.len(),
        s[j].name == n,
        forall|k: int| 0 <= k < j ==> s[k].name != n,
    ensures
        del(s, n) == s.remove(j),
    decreases j,
{
    if j == 0 {
        assert(del(s, n) =~= s.remove(0));
    } else {
        lemma_del_found(s.skip(1), n, j - 1);
        assert(seq![s[0]] + s.skip(1).remove(j - 1) =~= s.remove(j));
    }
}

/// `del` keeps `s` as it is when no record is named `n`.
proof fn lemma_del_absent(s: Seq<BillView>, n: Seq<char>)
    requires
        forall|k: int| 0 <= k < s.len() ==> s[k].name != n,
    ensures
        del(s, n) == s,
    decreases s.len(),
{
    if s.len() > 0 {
        lemma_del_absent(s.skip(1), n);
        assert(seq![s[0]] + s.skip(1) =~= s);
    }
}

/// Updating the first record named `n` in place is what `set_amount` does
/// when the earlier records are named otherwise.
proof fn lemma_set_amount_found(s: Seq<BillView>, n: Seq<char>, a: Seq<char>, j: int)
    requires
        0 <= j < s.len(),
        s[j].name == n,
        forall|k: int| 0 <= k < j ==> s[k].name != n,
    ensures
        set_amount(s, n, a) == s.update(j, BillView { name: n, amount: a }),
    decreases j,
{
    if j == 0 {
        assert(set_amount(s, n, a) =~= s.update(0, BillView { name: n, amount: a }));
    } else {
        lemma_set_amount_found(s.skip(1), n, a, j - 1);
        assert(seq![s[0]] + s.skip(1).update(j - 1, BillView { name: n, amount: a }) =~= s.update(
            j,
            BillView { name: n, amount: a },
        ));
    }
}

/// `set_amount` keeps `s` as it is when no record is named `n`.
proof fn lemma_set_amount_absent(s: Seq<BillView>, n: Seq<char>)
    requires
        forall|k: int| 0 <= k < s.len() ==> s[k].name != n,
    ensures
        forall|a: Seq<char>| set_amount(s, n, a) == s,
    decreases s.len(),
{
    if s.len() > 0 {
        lemma_set_amount_absent(s.skip(1), n);
        assert forall|a: Seq<char>| set_amount(s, n, a) == s by {
            assert(seq![s[0]] + set_amount(s.skip(1), n, a) =~= s);
        }
    }
}

/// Prepending a record to a sequence inserts its pair into the mapping.
proof fn lemma_as_map_cons(x: BillView, t: Seq<BillView>)
    ensures
        as_map(seq![x] + t) == as_map(t).insert(x.name, x.amount),
{
    assert((seq![x] + t).skip(1) =~= t);
    assert((seq![x] + t)[0] == x);
}

/// A name is in the mapping exactly when some record carries it.
proof fn lemma_as_map_dom(s: Seq<BillView>)
    ensures
        forall|n: Seq<char>| #[trigger] as_map(s).contains_key(n) <==> has_name(s, n),
    decreases s.len(),
{
    if s.len() > 0 {
        lemma_as_map_dom(s.skip(1));
        assert forall|n: Seq<char>| #[trigger] as_map(s).contains_key(n) <==> has_name(s, n) by {
            if n == s[0].name {
                assert(s[0].name == n);
                assert(has_name(s, n));
                assert(as_map(s).contains_key(n));
            } else {
                if has_name(s, n) {
                    let i = choose|i: int| 0 <= i < s.len() && s[i].name == n;
                    assert(s.skip(1)[i - 1].name == n);
                    assert(has_name(s.skip(1), n));
                    assert(as_map(s.skip(1)).contains_key(n));
                    assert(as_map(s).contains_key(n));
                }
                if as_map(s).contains_key(n) {
                    assert(as_map(s.skip(1)).contains_key(n));
                    assert(has_name(s.skip(1), n));
                    let i = choose|i: int| 0 <= i < s.skip(1).len() && s.skip(1)[i].name == n;
                    assert(s[i + 1].name == n);
                    assert(has_name(s, n));
                }
            }
        }
    }
}

/// An insert turns into `Map::insert` on the mapping, whatever `s` holds.
proof fn lemma_as_map_upsert(s: Seq<BillView>, b: BillView)
    ensures
        as_map(upsert(s, b)) == as_map(s).insert(b.name, b.amount),
    decreases s.len(),
{
    if s.len() == 0 {
        assert(seq![b].skip(1) =~= Seq::<BillView>::empty());
        assert(as_map(seq![b]) == as_map(seq![b].skip(1)).insert(b.name, b.amount));
        assert(as_map(seq![b].skip(1)) == Map::<Seq<char>, Seq<char>>::empty());
        assert(as_map(s) == Map::<Seq<char>, Seq<char>>::empty());
        assert(as_map(upsert(s, b)) =~= as_map(s).insert(b.name, b.amount));
    } else if s[0].name == b.name {
        lemma_as_map_cons(b, s.skip(1));
        assert(seq![b] + s.skip(1) =~= upsert(s, b));
        assert(as_map(upsert(s, b)) == as_map(s.skip(1)).insert(b.name, b.amount));
        assert(as_map(s) == as_map(s.skip(1)).insert(s[0].name, s[0].amount));
        assert(as_map(upsert(s, b)) =~= as_map(s).insert(b.name, b.amount));
    } else {
        lemma_as_map_upsert(s.skip(1), b);
        lemma_as_map_cons(s[0], upsert(s.skip(1), b));
        assert(seq![s[0]] + upsert(s.skip(1), b) =~= upsert(s, b));
        assert(as_map(upsert(s, b)) =~= as_map(s).insert(b.name, b.amount));
    }
}

/// A delete turns into `Map::remove` on the mapping of a well-formed store.
proof fn lemma_as_map_del(s: Seq<BillView>, n: Seq<char>)
    requires
        distinct_names(s),
    ensures
        as_map(del(s, n)) == as_map(s).remove(n),
    decreases s.len(),
{
    if s.len() == 0 {
        assert(as_map(del(s, n)) =~= as_map(s).remove(n));
    } else if s[0].name == n {
        lemma_as_map_dom(s.skip(1));
        assert(forall|k: int| 0 <= k < s.skip(1).len() ==> s.skip(1)[k] == s[k + 1]);
        assert(!has_name(s.skip(1), n));
        assert(as_map(del(s, n)) =~= as_map(s).remove(n));
    } else {
        assert(forall|k: int| 0 <= k < s.skip(1).len() ==> s.skip(1)[k] == s[k + 1]);
        lemma_as_map_del(s.skip(1), n);
        lemma_as_map_cons(s[0], del(s.skip(1), n));
        assert(seq![s[0]] + del(s.skip(1), n) =~= del(s, n));
        assert(as_map(del(s, n)) =~= as_map(s).remove(n));
    }
}

/// An amount update on a present name turns into `Map::insert` on the
/// mapping of a well-formed store.
proof fn lemma_as_map_set_amount(s: Seq<BillView>, n: Seq<char>, a: Seq<char>)
    requires
        distinct_names(s),
        has_name(s, n),
    ensures
        as_map(set_amount(s, n, a)) == as_map(s).insert(n, a),
    decreases s.len(),
{
    if s[0].name == n {
        lemma_as_map_cons(BillView { name: n, amount: a }, s.skip(1));
        assert(seq![BillView { name: n, amount: a }] + s.skip(1) =~= set_amount(s, n, a));
        assert(as_map(set_amount(s, n, a)) =~= as_map(s).insert(n, a));
    } else {
        assert(forall|k: int| 0 <= k < s.skip(1).len() ==> s.skip(1)[k] == s[k + 1]);
        let i = choose|i: int| 0 <= i < s.len() && s[i].name == n;
        assert(s.skip(1)[i - 1].name == n);
        lemma_as_map_set_amount(s.skip(1), n, a);
        lemma_as_map_cons(s[0], set_amount(s.skip(1), n, a));
        assert(seq![s[0]] + set_amount(s.skip(1), n, a) =~= set_amount(s, n, a));
        assert(as_map(set_amount(s, n, a)) =~= as_map(s).insert(n, a));
    }
}

/// What an insert does to which names exist: the new one is present, the
/// others are as they were, and well-formedness is kept.
proof fn lemma_upsert_props(s: Seq<BillView>, b: BillView)
    requires
        distinct_names(s),
    ensures
        distinct_names(upsert(s, b)),
        forall|m: Seq<char>| has_name(upsert(s, b), m) <==> (has_name(s, m) || m == b.name),
{
    if has_name(s, b.name) {
        let j = choose|j: int| 0 <= j < s.len() && s[j].name == b.name;
        assert(forall|k: int| 0 <= k < j ==> s[k].name != b.name);
        lemma_upsert_found(s, b, j);
        let u = s.update(j, b);
        assert forall|m: Seq<char>| has_name(u, m) implies (has_name(s, m) || m == b.name) by {
            let i = choose|i: int| 0 <= i < u.len() && u[i].name == m;
            if i != j {
                assert(s[i].name == m);
            }
        }
        assert forall|m: Seq<char>| has_name(s, m) || m == b.name implies has_name(u, m) by {
            if m == b.name {
                assert(u[j].name == m);
            } else {
                let i = choose|i: int| 0 <= i < s.len() && s[i].name == m;
                assert(u[i].name == m);
            }
        }
    } else {
        lemma_upsert_absent(s, b);
        let u = s.push(b);
        assert forall|m: Seq<char>| has_name(u, m) implies (has_name(s, m) || m == b.name) by {
            let i = choose|i: int| 0 <= i < u.len() && u[i].name == m;
            if i < s.len() {
                assert(s[i].name == m);
            }
        }
        assert forall|m: Seq<char>| has_name(s, m) || m == b.name implies has_name(u, m) by {
            if m == b.name {
                assert(u[s.len() as int].name == m);
            } else {
                let i = choose|i: int| 0 <= i < s.len() && s[i].name == m;
                assert(u[i].name == m);
            }
        }
    }
}

/// What a delete does to which names exist: the deleted one is gone, the
/// others are as they were, and well-formedness is kept.
proof fn lemma_del_props(s: Seq<BillView>, n: Seq<char>)
    requires
        distinct_names(s),
    ensures
        distinct_names(del(s, n)),
        !has_name(del(s, n), n),
        forall|m: Seq<char>| m != n ==> (has_name(del(s, n), m) <==> has_name(s, m)),
{
    if has_name(s, n) {
        let j = choose|j: int| 0 <= j < s.len() && s[j].name == n;
        assert(forall|k: int| 0 <= k < j ==> s[k].name != n);
        lemma_del_found(s, n, j);
        let u = s.remove(j);
        assert(forall|k: int| 0 <= k < j ==> u[k] == s[k]);
        assert(forall|k: int| j <= k < u.len() ==> u[k] == s[k + 1]);
        assert forall|m: Seq<char>| m != n && has_name(s, m) implies has_name(u, m) by {
            let i = choose|i: int| 0 <= i < s.len() && s[i].name == m;
            if i < j {
                assert(u[i].name == m);
            } else {
                assert(u[i - 1].name == m);
            }
        }
        if has_name(u, n) {
            let i = choose|i: int| 0 <= i < u.len() && u[i].name == n;
            if i < j {
                assert(s[i].name == n);
            } else {
                assert(s[i + 1].name == n);
            }
        }
    } else {
        lemma_del_absent(s, n);
    }
}

/// What an amount update does to which names exist: none appears and none
/// disappears, and well-formedness is kept.
proof fn lemma_set_amount_props(s: Seq<BillView>, n: Seq<char>, a: Seq<char>)
    requires
        distinct_names(s),
    ensures
        distinct_names(set_amount(s, n, a)),
        forall|m: Seq<char>| has_name(set_amount(s, n, a), m) <==> has_name(s, m),
{
    if has_name(s, n) {
        let j = choose|j: int| 0 <= j < s.len() && s[j].name == n;
        assert(forall|k: int| 0 <= k < j ==> s[k].name != n);
        lemma_set_amount_found(s, n, a, j);
        let u = s.update(j, BillView { name: n, amount: a });
        assert forall|m: Seq<char>| has_name(u, m) implies has_name(s, m) by {
            let i = choose|i: int| 0 <= i < u.len() && u[i].name == m;
            assert(s[i].name == m);
        }
        assert forall|m: Seq<char>| has_name(s, m) implies has_name(u, m) by {
            let i = choose|i: int| 0 <= i < s.len() && s[i].name == m;
            assert(u[i].name == m);
        }
    } else {
        lemma_set_amount_absent(s, n);
    }
}

/// Every store reached by a sequence of adds, starting empty.
pub open spec fn add_all(bs: Seq<BillView>) -> Seq<BillView>
    decreases bs.len(),
{
    if bs.len() == 0 {
        Seq::empty()
    } else {
        upsert(add_all(bs.drop_last()), bs.last())
    }
}

/// Whether some add in `bs` carried the name `n`.
pub open spec fn was_added(bs: Seq<BillView>, n: Seq<char>) -> bool {
    exists|i: int| 0 <= i < bs.len() && bs[i].name == n
}

/// The amount of the most recent add in `bs` named `n`; meaningful only
/// when one exists.
pub open spec fn last_amount(bs: Seq<BillView>, n: Seq<char>) -> Seq<char>
    decreases bs.len(),
{
    if bs.len() == 0 {
        Seq::empty()
    } else if bs.last().name == n {
        bs.last().amount
    } else {
        last_amount(bs.drop_last(), n)
    }
}

/// Uniqueness law: after any sequence of adds into an empty store, there is
/// exactly one record per distinct name (the names are pairwise distinct and
/// exactly the names added), and each holds the amount of the most recent
/// add of that name.
pub proof fn lemma_uniqueness(bs: Seq<BillView>)
    ensures
        distinct_names(add_all(bs)),
        forall|n: Seq<char>| has_name(add_all(bs), n) <==> was_added(bs, n),
        forall|n: Seq<char>|
            was_added(bs, n) ==> #[trigger] as_map(add_all(bs))[n] == last_amount(bs, n),
    decreases bs.len(),
{
    if bs.len() > 0 {
        let prev = add_all(bs.drop_last());
        let b = bs.last();
        lemma_uniqueness(bs.drop_last());
        lemma_upsert_props(prev, b);
        lemma_as_map_upsert(prev, b);
        assert(add_all(bs) == upsert(prev, b));
        assert forall|n: Seq<char>| has_name(add_all(bs), n) implies was_added(bs, n) by {
            assert(has_name(upsert(prev, b), n) <==> (has_name(prev, n) || n == b.name));
            if n == b.name {
                assert(bs[bs.len() - 1].name == n);
                assert(was_added(bs, n));
            } else {
                assert(has_name(prev, n));
                assert(was_added(bs.drop_last(), n));
                let i = choose|i: int| 0 <= i < bs.drop_last().len() && bs.drop_last()[i].name
                    == n;
                assert(bs[i].name == n);
                assert(was_added(bs, n));
            }
        }
        assert forall|n: Seq<char>| was_added(bs, n) implies has_name(add_all(bs), n) by {
            assert(has_name(upsert(prev, b), n) <==> (has_name(prev, n) || n == b.name));
            if n == b.name {
                assert(has_name(add_all(bs), n));
            } else {
                let i = choose|i: int| 0 <= i < bs.len() && bs[i].name == n;
                assert(bs.drop_last()[i].name == n);
                assert(was_added(bs.drop_last(), n));
                assert(has_name(prev, n));
                assert(has_name(add_all(bs), n));
            }
        }
        assert forall|n: Seq<char>| was_added(bs, n) implies #[trigger] as_map(add_all(bs))[n]
            == last_amount(bs, n) by {
            assert(as_map(upsert(prev, b)) == as_map(prev).insert(b.name, b.amount));
            if n == b.name {
                assert(as_map(add_all(bs))[n] == b.amount);
            } else {
                let i = choose|i: int| 0 <= i < bs.len() && bs[i].name == n;
                assert(bs.drop_last()[i].name == n);
                assert(was_added(bs.drop_last(), n));
                assert(as_map(add_all(bs.drop_last()))[n] == last_amount(bs.drop_last(), n));
                assert(as_map(add_all(bs))[n] == as_map(prev)[n]);
            }
        }
    }
}

/// Update-only-mutates-existing law: an update of an absent name reports
/// false and leaves the store exactly as it was; an update of a present name
/// reports true and afterwards the mapping holds the new amount under that
/// name and is otherwise unchanged.
pub proof fn lemma_update_only_mutates_existing(s: Seq<BillView>, n: Seq<char>, a: Seq<char>)
    requires
        distinct_names(s),
    ensures
        !has_name(s, n) ==> set_amount(s, n, a) == s,
        has_name(s, n) ==> as_map(set_amount(s, n, a)) == as_map(s).insert(n, a),
        has_name(s, n) ==> as_map(set_amount(s, n, a))[n] == a,
        distinct_names(set_amount(s, n, a)),
        forall|m: Seq<char>| has_name(set_amount(s, n, a), m) <==> has_name(s, m),
{
    lemma_set_amount_props(s, n, a);
    if has_name(s, n) {
        lemma_as_map_set_amount(s, n, a);
    } else {
        lemma_set_amount_absent(s, n);
    }
}

/// Remove-is-idempotent law: after a remove the name is gone, so removing it
/// again reports false and changes nothing; on the mapping a remove is
/// `Map::remove`.
pub proof fn lemma_remove_idempotent(s: Seq<BillView>, n: Seq<char>)
    requires
        distinct_names(s),
    ensures
        !has_name(del(s, n), n),
        del(del(s, n), n) == del(s, n),
        as_map(del(s, n)) == as_map(s).remove(n),
        distinct_names(del(s, n)),
        forall|m: Seq<char>| m != n ==> (has_name(del(s, n), m) <==> has_name(s, m)),
{
    lemma_del_props(s, n);
    lemma_as_map_del(s, n);
    lemma_del_absent(del(s, n), n);
}

} // verus!

