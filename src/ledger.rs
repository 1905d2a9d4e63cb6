use vstd::prelude::*;
use crate::types::{
    bytes_cmp, lemma_bytes_cmp_flip, lemma_bytes_cmp_trans, lemma_bytes_cmp_zero, Identifier,
    OutputData, OutputStatus,
};

verus! {

/// No two entries share a key identifier.
pub open spec fn keys_unique(s: Seq<OutputData>) -> bool {
    forall|i: int, j: int|
        0 <= i < s.len() && 0 <= j < s.len() && i != j ==> #[trigger] s[i].key_id.bytes()
            != #[trigger] s[j].key_id.bytes()
}

/// Whether some entry has the key identifier `k`.
pub open spec fn has_key(s: Seq<OutputData>, k: Seq<u8>) -> bool {
    exists|i: int| 0 <= i < s.len() && #[trigger] s[i].key_id.bytes() == k
}

/// Position of the entry with key identifier `k`, or -1 when there is none.
pub open spec fn key_index(s: Seq<OutputData>, k: Seq<u8>) -> int {
    if has_key(s, k) {
        choose|i: int| 0 <= i < s.len() && #[trigger] s[i].key_id.bytes() == k
    } else {
        -1
    }
}

/// Entries in strictly ascending order of key identifier.
pub open spec fn keys_sorted(s: Seq<OutputData>) -> bool {
    forall|i: int, j: int|
        0 <= i < j < s.len() ==> bytes_cmp(#[trigger] s[i].key_id.bytes(), #[trigger] s[j].key_id.bytes())
            < 0
}

proof fn lemma_sorted_unique(s: Seq<OutputData>)
    requires
        keys_sorted(s),
    ensures
        keys_unique(s),
{
    assert forall|i: int, j: int|
        0 <= i < s.len() && 0 <= j < s.len() && i != j implies #[trigger] s[i].key_id.bytes()
            != #[trigger] s[j].key_id.bytes() by {
        lemma_bytes_cmp_zero(s[i].key_id.bytes(), s[j].key_id.bytes());
        lemma_bytes_cmp_flip(s[i].key_id.bytes(), s[j].key_id.bytes());
    }
}

proof fn lemma_insert_sorted(s: Seq<OutputData>, p: int, out: OutputData)
    requires
        keys_sorted(s),
        0 <= p <= s.len(),
        forall|k: int| 0 <= k < p ==> bytes_cmp(#[trigger] s[k].key_id.bytes(), out.key_id.bytes()) < 0,
        forall|k: int| p <= k < s.len() ==> bytes_cmp(out.key_id.bytes(), #[trigger] s[k].key_id.bytes()) < 0,
    ensures
        keys_sorted(s.insert(p, out)),
{
    let t = s.insert(p, out);
    assert forall|i: int, j: int| 0 <= i < j < t.len() implies bytes_cmp(
        #[trigger] t[i].key_id.bytes(),
        #[trigger] t[j].key_id.bytes(),
    ) < 0 by {
        if i < p && j > p {
            assert(t[i] == s[i]);
            assert(t[j] == s[j - 1]);
        } else if i < p && j < p {
            assert(t[i] == s[i] && t[j] == s[j]);
        } else if i > p {
            assert(t[i] == s[i - 1] && t[j] == s[j - 1]);
        }
    }
}

/// The entries after a request to lock `out`: the entry with its key
/// identifier is locked when its value equals `out.value`; otherwise nothing
/// changes.
pub open spec fn with_locked(s: Seq<OutputData>, out: OutputData) -> Seq<OutputData> {
    let i = key_index(s, out.key_id.bytes());
    if i >= 0 && s[i].value == out.value {
        s.update(i, s[i].locked())
    } else {
        s
    }
}

/// An entry that may fund a spend from the root key `root`.
pub open spec fn spendable(o: OutputData, root: Seq<u8>) -> bool {
    o.root_key_id.bytes() == root && o.status == OutputStatus::Unspent
}

/// Sum of the values of some entries.
pub open spec fn sum_values(s: Seq<OutputData>) -> int
    decreases s.len(),
{
    if s.len() == 0 {
        0
    } else {
        sum_values(s.drop_last()) + s.last().value
    }
}

/// All spendable entries under `root`, in key order.
pub open spec fn eligible(s: Seq<OutputData>, root: Seq<u8>) -> Seq<OutputData>
    decreases s.len(),
{
    if s.len() == 0 {
        Seq::empty()
    } else {
        let e = eligible(s.drop_last(), root);
        if spendable(s.last(), root) {
            e.push(s.last())
        } else {
            e
        }
    }
}

/// A selection that already covers `amount`.
pub open spec fn covers(t: Seq<OutputData>, amount: int) -> bool {
    t.len() > 0 && sum_values(t) >= amount
}

/// The entries that selection picks: walking the ledger in order, each
/// spendable entry under `root` is taken until the taken ones cover `amount`.
pub open spec fn selected(s: Seq<OutputData>, root: Seq<u8>, amount: int) -> Seq<OutputData>
    decreases s.len(),
{
    if s.len() == 0 {
        Seq::empty()
    } else {
        let g = selected(s.drop_last(), root, amount);
        if covers(g, amount) || !spendable(s.last(), root) {
            g
        } else {
            g.push(s.last())
        }
    }
}

/// The largest derivation index among the entries under `root`, or 0.
pub open spec fn max_child(s: Seq<OutputData>, root: Seq<u8>) -> u32
    decreases s.len(),
{
    if s.len() == 0 {
        0
    } else {
        let m = max_child(s.drop_last(), root);
        if m < s.last().n_child && s.last().root_key_id.bytes() == root {
            s.last().n_child
        } else {
            m
        }
    }
}

proof fn lemma_covered_stays(s: Seq<OutputData>, root: Seq<u8>, amount: int, i: int, j: int)
    requires
        0 <= i <= j <= s.len(),
        covers(selected(s.take(i), root, amount), amount),
    ensures
        selected(s.take(j), root, amount) == selected(s.take(i), root, amount),
    decreases j - i,
{
    if j > i {
        lemma_covered_stays(s, root, amount, i, j - 1);
        assert(s.take(j).drop_last() =~= s.take(j - 1));
    }
}

/// Selection takes either every spendable entry, or a part of them that
/// already covers the amount; it never takes more value than they hold.
pub proof fn lemma_selected_bounds(s: Seq<OutputData>, root: Seq<u8>, amount: int)
    ensures
        selected(s, root, amount) == eligible(s, root) || covers(selected(s, root, amount), amount),
        sum_values(selected(s, root, amount)) <= sum_values(eligible(s, root)),
    decreases s.len(),
{
    if s.len() > 0 {
        let g = selected(s.drop_last(), root, amount);
        let e = eligible(s.drop_last(), root);
        lemma_selected_bounds(s.drop_last(), root, amount);
        assert(g.push(s.last()).drop_last() =~= g);
        assert(e.push(s.last()).drop_last() =~= e);
    }
}

/// When the unspent outputs under `root` hold less than `amount` in all,
/// selection takes every one of them and its remainder is negative.
pub proof fn lemma_select_short(w: WalletData, root: Identifier, amount: u64)
    requires
        w.wf(),
        sum_values(eligible(w@, root.bytes())) < amount,
    ensures
        selected(w@, root.bytes(), amount as int) == eligible(w@, root.bytes()),
        sum_values(selected(w@, root.bytes(), amount as int)) - amount < 0,
{
    lemma_selected_bounds(w@, root.bytes(), amount as int);
}

/// No entry under `root` has a derivation index above `max_child`.
proof fn lemma_max_child_bounds(s: Seq<OutputData>, root: Seq<u8>)
    ensures
        forall|i: int|
            0 <= i < s.len() && #[trigger] s[i].root_key_id.bytes() == root ==> s[i].n_child
                <= max_child(s, root),
    decreases s.len(),
{
    if s.len() > 0 {
        let t = s.drop_last();
        lemma_max_child_bounds(t, root);
        assert forall|i: int|
            0 <= i < s.len() && #[trigger] s[i].root_key_id.bytes() == root implies s[i].n_child
                <= max_child(s, root) by {
            if i < s.len() - 1 {
                assert(t[i] == s[i]);
            }
        }
    }
}

/// The outputs a wallet tracks, each under its own key identifier, kept in
/// ascending order of key identifier. Selection walks them in that order, so
/// the same ledger always yields the same selection.
#[derive(Debug, Clone)]
pub struct WalletData {
    outputs: Vec<OutputData>,
}

impl View for WalletData {
    type V = Seq<OutputData>;

    closed spec fn view(&self) -> Seq<OutputData> {
        self.outputs@
    }
}

impl WalletData {
    /// Entries are kept in strictly ascending order of key identifier, so
    /// key identifiers are unique.
    pub open spec fn wf(&self) -> bool {
        keys_sorted(self@)
    }

    /// An empty ledger.
    pub fn new() -> (r: WalletData)
        ensures
            r.wf(),
            r@ == Seq::<OutputData>::empty(),
    {
        WalletData { outputs: Vec::new() }
    }

    /// The entries, in ledger order.
    pub fn outputs(&self) -> (r: &[OutputData])
        ensures
            r@ == self@,
    {
        self.outputs.as_slice()
    }

    fn find(&self, key_id: &Identifier) -> (r: Option<usize>)
        requires
            self.wf(),
        ensures
            r is Some <==> key_index(self@, key_id.bytes()) >= 0,
            r is Some ==> r->Some_0 as int == key_index(self@, key_id.bytes()),
    {
        let mut i: usize = 0;
        while i < self.outputs.len()
            invariant
                i <= self@.len(),
                self.outputs@ == self@,
                keys_sorted(self@),
                forall|k: int| 0 <= k < i ==> #[trigger] self@[k].key_id.bytes() != key_id.bytes(),
            decreases self@.len() - i,
        {
            proof {
                lemma_sorted_unique(self@);
            }
            if self.outputs[i].key_id == *key_id {
                assert(self@[i as int].key_id.bytes() == key_id.bytes());
                assert(has_key(self@, key_id.bytes()));
                let ghost j = key_index(self@, key_id.bytes());
                assert(self@[j].key_id.bytes() == key_id.bytes());
                assert(j == i as int) by {
                    if j != i as int {
                        assert(self@[j].key_id.bytes() != self@[i as int].key_id.bytes());
                    }
                }
                return Some(i);
            }
            i = i + 1;
        }
        None
    }

    /// Adds an output: it replaces the entry with the same key identifier,
    /// or else goes in at its place in key order.
    pub fn add_output(&mut self, out: OutputData)
        requires
            old(self).wf(),
        ensures
            final(self).wf(),
            has_key(old(self)@, out.key_id.bytes()) ==> final(self)@ == old(self)@.update(
                key_index(old(self)@, out.key_id.bytes()),
                out,
            ),
            !has_key(old(self)@, out.key_id.bytes()) ==> exists|p: int|
                0 <= p <= old(self)@.len() && final(self)@ == old(self)@.insert(p, out),
    {
        let ghost s = self@;
        let ghost k = out.key_id.bytes();
        let n = self.outputs.len();
        let mut i: usize = 0;
        while i < n
            invariant
                s == self@,
                k == out.key_id.bytes(),
                self.outputs@ == s,
                keys_sorted(s),
                n == s.len(),
                i <= n,
                forall|j: int| 0 <= j < i ==> bytes_cmp(#[trigger] s[j].key_id.bytes(), k) < 0,
            ensures
                i <= n,
                forall|j: int| 0 <= j < i ==> bytes_cmp(#[trigger] s[j].key_id.bytes(), k) < 0,
                i < n ==> bytes_cmp(s[i as int].key_id.bytes(), k) >= 0,
            decreases n - i,
        {
            if self.outputs[i].key_id.compare(&out.key_id) >= 0 {
                break;
            }
            i = i + 1;
        }
        if i < n && self.outputs[i].key_id.compare(&out.key_id) == 0 {
            proof {
                lemma_bytes_cmp_zero(s[i as int].key_id.bytes(), k);
                lemma_sorted_unique(s);
                assert(has_key(s, k));
                let j = key_index(s, k);
                assert(s[j].key_id.bytes() == k);
                assert(j == i as int);
                assert forall|a: int, b: int| 0 <= a < b < s.len() implies bytes_cmp(
                    #[trigger] s.update(i as int, out)[a].key_id.bytes(),
                    #[trigger] s.update(i as int, out)[b].key_id.bytes(),
                ) < 0 by {
                    assert(s[a].key_id.bytes() == s.update(i as int, out)[a].key_id.bytes());
                    assert(s[b].key_id.bytes() == s.update(i as int, out)[b].key_id.bytes());
                }
            }
            self.outputs.set(i, out);
        } else {
            proof {
                assert forall|j: int| i <= j < s.len() implies bytes_cmp(k, #[trigger] s[j].key_id.bytes()) < 0 by {
                    lemma_bytes_cmp_zero(s[i as int].key_id.bytes(), k);
                    lemma_bytes_cmp_flip(s[i as int].key_id.bytes(), k);
                    if j > i {
                        lemma_bytes_cmp_trans(k, s[i as int].key_id.bytes(), s[j].key_id.bytes());
                    }
                }
                assert forall|j: int| 0 <= j < s.len() implies #[trigger] s[j].key_id.bytes() != k by {
                    lemma_bytes_cmp_zero(s[j].key_id.bytes(), k);
                    lemma_bytes_cmp_flip(s[j].key_id.bytes(), k);
                }
                lemma_insert_sorted(s, i as int, out);
            }
            self.outputs.insert(i, out);
        }
    }

    /// Locks the stored output with `out`'s key identifier, provided its value
    /// is `out.value`; does nothing otherwise.
    pub fn lock_output(&mut self, out: &OutputData)
        requires
            old(self).wf(),
        ensures
            final(self).wf(),
            final(self)@ == with_locked(old(self)@, *out),
            !has_key(old(self)@, out.key_id.bytes())
                || old(self)@[key_index(old(self)@, out.key_id.bytes())].value != out.value
                ==> final(self)@ == old(self)@,
    {
        match self.find(&out.key_id) {
            Some(i) => {
                if self.outputs[i].value == out.value {
                    let mut o = self.outputs[i];
                    o.lock();
                    self.outputs.set(i, o);
                }
            },
            None => {},
        }
    }

    /// The output with the given key identifier, if there is one.
    pub fn get_output(&self, key_id: &Identifier) -> (r: Option<&OutputData>)
        requires
            self.wf(),
        ensures
            r is Some <==> has_key(self@, key_id.bytes()),
            r is Some ==> *r->Some_0 == self@[key_index(self@, key_id.bytes())],
    {
        match self.find(key_id) {
            Some(i) => Some(&self.outputs[i]),
            None => None,
        }
    }
    /// Picks unspent outputs under `root_key_id` to fund `amount`: walking
    /// the ledger in key order, each is taken until their values reach `amount`.
    /// Returns them with the remainder, their total minus `amount`, which is
    /// negative when the funds are not enough.
    pub fn select(&self, root_key_id: Identifier, amount: u64) -> (r: (Vec<OutputData>, i128))
        requires
            self.wf(),
        ensures
            r.0@ == selected(self@, root_key_id.bytes(), amount as int),
            r.1 == sum_values(r.0@) - amount,
    {
        let ghost s = self@;
        let ghost root = root_key_id.bytes();
        let mut to_spend: Vec<OutputData> = Vec::new();
        let mut input_total: u128 = 0;
        let mut i: usize = 0;
        while i < self.outputs.len()
            invariant
                s == self@,
                root == root_key_id.bytes(),
                i <= s.len(),
                self.outputs@ == s,
                to_spend@ == selected(s.take(i as int), root, amount as int),
                !covers(to_spend@, amount as int),
                input_total == sum_values(to_spend@),
                input_total <= amount,
            decreases s.len() - i,
        {
            let out = self.outputs[i];
            assert(s.take(i + 1).drop_last() =~= s.take(i as int));
            if out.root_key_id == root_key_id && out.status == OutputStatus::Unspent {
                proof {
                    assert(to_spend@.push(out).drop_last() =~= to_spend@);
                }
                to_spend.push(out);
                input_total = input_total + out.value as u128;
                if input_total >= amount as u128 {
                    proof {
                        lemma_covered_stays(s, root, amount as int, i + 1, s.len() as int);
                        assert(s.take(s.len() as int) =~= s);
                    }
                    return (to_spend, input_total as i128 - amount as i128);
                }
            }
            i = i + 1;
        }
        assert(s.take(s.len() as int) =~= s);
        (to_spend, input_total as i128 - amount as i128)
    }

    /// The next free derivation index under `root_key_id`: one more than the
    /// largest one in use there, or 1 when there is none.
    pub fn next_child(&self, root_key_id: Identifier) -> (r: u32)
        requires
            max_child(self@, root_key_id.bytes()) < u32::MAX,
        ensures
            r == max_child(self@, root_key_id.bytes()) + 1,
            forall|i: int|
                0 <= i < self@.len() && #[trigger] self@[i].root_key_id.bytes()
                    == root_key_id.bytes() ==> self@[i].n_child < r,
    {
        proof {
            lemma_max_child_bounds(self@, root_key_id.bytes());
        }
        let ghost s = self@;
        let mut max_n: u32 = 0;
        let mut i: usize = 0;
        while i < self.outputs.len()
            invariant
                s == self@,
                i <= s.len(),
                self.outputs@ == s,
                max_n == max_child(s.take(i as int), root_key_id.bytes()),
            decreases s.len() - i,
        {
            let out = self.outputs[i];
            assert(s.take(i + 1).drop_last() =~= s.take(i as int));
            if max_n < out.n_child && out.root_key_id == root_key_id {
                max_n = out.n_child;
            }
            i = i + 1;
        }
        assert(s.take(s.len() as int) =~= s);
        max_n + 1
    }
}

} // verus!
