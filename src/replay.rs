//! Folding medication directives into the set of active medications.
use vstd::prelude::*;
use crate::directive::{Directive, DirectiveView};

verus! {

/// A view of an active medication: name and dosage.
pub type Entry = (Seq<char>, Seq<char>);

/// An active medication and its current dosage.
pub struct Medication {
    pub name: String,
    pub dosage: String,
}

impl View for Medication {
    type V = Entry;

    open spec fn view(&self) -> Entry {
        (self.name@, self.dosage@)
    }
}

pub open spec fn entries_view(v: Seq<Medication>) -> Seq<Entry> {
    v.map_values(|m: Medication| m@)
}

pub open spec fn kw_prescribe() -> Seq<char> {
    "PRESCREVO"@
}

pub open spec fn kw_adjust() -> Seq<char> {
    "AJUSTO"@
}

pub open spec fn kw_suspend() -> Seq<char> {
    "SUSPENDO"@
}

pub open spec fn kw_maintain() -> Seq<char> {
    "MANTENHO"@
}

/// The first index at or after `i` whose entry is named `name`.
pub open spec fn position_from(st: Seq<Entry>, name: Seq<char>, i: int) -> Option<int>
    decreases st.len() - i,
{
    if i < 0 || i >= st.len() {
        None
    } else if st[i].0 == name {
        Some(i)
    } else {
        position_from(st, name, i + 1)
    }
}

pub open spec fn position(st: Seq<Entry>, name: Seq<char>) -> Option<int> {
    position_from(st, name, 0)
}

/// The dosage recorded for `name`, if it is active.
pub open spec fn lookup(st: Seq<Entry>, name: Seq<char>) -> Option<Seq<char>> {
    match position(st, name) {
        Some(k) => Some(st[k].1),
        None => None,
    }
}

/// Names are unique keys.
pub open spec fn keys_unique(st: Seq<Entry>) -> bool {
    forall|a: int, b: int| 0 <= a < b < st.len() ==> st[a].0 != st[b].0
}

/// Record `name` at `dosage`: an existing entry is overwritten in place, a new
/// one goes last.
pub open spec fn put(st: Seq<Entry>, name: Seq<char>, dosage: Seq<char>) -> Seq<Entry> {
    match position(st, name) {
        Some(k) => st.update(k, (name, dosage)),
        None => st.push((name, dosage)),
    }
}

/// Remove the entry for `name`, if any.
pub open spec fn withdraw(st: Seq<Entry>, name: Seq<char>) -> Seq<Entry> {
    match position(st, name) {
        Some(k) => st.remove(k),
        None => st,
    }
}

/// The effect of one directive on the active medications.
pub open spec fn apply(st: Seq<Entry>, d: DirectiveView) -> Seq<Entry> {
    if d.0 == kw_prescribe() || d.0 == kw_adjust() {
        put(st, d.1, d.2)
    } else if d.0 == kw_suspend() {
        withdraw(st, d.1)
    } else if d.0 == kw_maintain() {
        if lookup(st, d.1) is Some {
            st
        } else {
            put(st, d.1, d.2)
        }
    } else {
        st
    }
}

/// The active medications after replaying `ds` in order on `st`.
pub open spec fn replay(st: Seq<Entry>, ds: Seq<DirectiveView>) -> Seq<Entry>
    decreases ds.len(),
{
    if ds.len() == 0 {
        st
    } else {
        apply(replay(st, ds.drop_last()), ds.last())
    }
}

/// The four action keywords differ from one another.
pub proof fn lemma_keywords_distinct()
    ensures
        kw_prescribe() != kw_adjust(),
        kw_prescribe() != kw_suspend(),
        kw_prescribe() != kw_maintain(),
        kw_adjust() != kw_suspend(),
        kw_adjust() != kw_maintain(),
        kw_suspend() != kw_maintain(),
{
    reveal_strlit("PRESCREVO");
    reveal_strlit("AJUSTO");
    reveal_strlit("SUSPENDO");
    reveal_strlit("MANTENHO");
    assert(kw_prescribe().len() != kw_adjust().len());
    assert(kw_prescribe().len() != kw_suspend().len());
    assert(kw_prescribe().len() != kw_maintain().len());
    assert(kw_adjust().len() != kw_suspend().len());
    assert(kw_adjust().len() != kw_maintain().len());
    assert(kw_suspend()[0] != kw_maintain()[0]);
}

proof fn lemma_position_from(st: Seq<Entry>, name: Seq<char>, i: int)
    requires
        0 <= i <= st.len(),
    ensures
        match position_from(st, name, i) {
            Some(k) => i <= k < st.len() && st[k].0 == name && forall|m: int|
                i <= m < k ==> st[m].0 != name,
            None => forall|m: int| i <= m < st.len() ==> st[m].0 != name,
        },
    decreases st.len() - i,
{
    if i < st.len() && st[i].0 != name {
        lemma_position_from(st, name, i + 1);
    }
}

/// What `position` says: the first entry named `name`, if any.
pub proof fn lemma_position(st: Seq<Entry>, name: Seq<char>)
    ensures
        match position(st, name) {
            Some(k) => 0 <= k < st.len() && st[k].0 == name && forall|m: int|
                0 <= m < k ==> st[m].0 != name,
            None => forall|m: int| 0 <= m < st.len() ==> st[m].0 != name,
        },
{
    lemma_position_from(st, name, 0);
}

/// Replaying directives keeps names unique.
pub proof fn lemma_apply_keeps_keys_unique(st: Seq<Entry>, d: DirectiveView)
    requires
        keys_unique(st),
    ensures
        keys_unique(apply(st, d)),
{
    lemma_position(st, d.1);
    match position(st, d.1) {
        Some(k) => {
            assert(keys_unique(st.update(k, (d.1, d.2))));
            let r = st.remove(k);
            assert forall|a: int, b: int| 0 <= a < b < r.len() implies r[a].0 != r[b].0 by {
                let a2 = if a < k { a } else { a + 1 };
                let b2 = if b < k { b } else { b + 1 };
                assert(r[a] == st[a2] && r[b] == st[b2]);
            }
        },
        None => {
            assert(keys_unique(st.push((d.1, d.2))));
        },
    }
}

pub proof fn lemma_replay_keeps_keys_unique(st: Seq<Entry>, ds: Seq<DirectiveView>)
    requires
        keys_unique(st),
    ensures
        keys_unique(replay(st, ds)),
    decreases ds.len(),
{
    if ds.len() > 0 {
        lemma_replay_keeps_keys_unique(st, ds.drop_last());
        lemma_apply_keeps_keys_unique(replay(st, ds.drop_last()), ds.last());
    }
}

/// After `put`, `name` maps to `dosage`.
pub proof fn lemma_lookup_put(st: Seq<Entry>, name: Seq<char>, dosage: Seq<char>)
    ensures
        lookup(put(st, name, dosage), name) == Some(dosage),
{
    lemma_position(st, name);
    let r = put(st, name, dosage);
    lemma_position(r, name);
    match position(r, name) {
        Some(k) => {
            match position(st, name) {
                Some(j) => {
                    if k < j {
                        assert(r[k] == st[k]);
                    } else if j < k {
                        assert(r[j].0 == name);
                    }
                },
                None => {
                    if k < st.len() {
                        assert(r[k] == st[k]);
                    }
                },
            }
        },
        None => {
            match position(st, name) {
                Some(j) => assert(r[j].0 == name),
                None => assert(r[st.len() as int].0 == name),
            }
        },
    }
}

/// After `withdraw` on unique names, `name` is absent.
pub proof fn lemma_lookup_withdraw(st: Seq<Entry>, name: Seq<char>)
    requires
        keys_unique(st),
    ensures
        lookup(withdraw(st, name), name) is None,
{
    lemma_position(st, name);
    let r = withdraw(st, name);
    lemma_position(r, name);
    match position(r, name) {
        Some(k) => {
            match position(st, name) {
                Some(j) => {
                    if k < j {
                        assert(r[k] == st[k]);
                    } else {
                        assert(r[k] == st[k + 1]);
                    }
                },
                None => {},
            }
        },
        None => {},
    }
}

/// A later directive overrides an earlier one: a prescription followed by a
/// suspension leaves the medication out, and a suspension followed by a
/// prescription leaves it in at the prescribed dosage.
pub proof fn lemma_order_decides(
    st: Seq<Entry>,
    name: Seq<char>,
    dosage: Seq<char>,
    p: DirectiveView,
    s: DirectiveView,
)
    requires
        keys_unique(st),
        p == (kw_prescribe(), name, dosage),
        s.0 == kw_suspend(),
        s.1 == name,
    ensures
        lookup(replay(st, seq![p, s]), name) is None,
        lookup(replay(st, seq![s, p]), name) == Some(dosage),
{
    lemma_keywords_distinct();
    assert(seq![p, s].drop_last() =~= seq![p]);
    assert(seq![p].drop_last() =~= Seq::<DirectiveView>::empty());
    assert(seq![s, p].drop_last() =~= seq![s]);
    assert(seq![s].drop_last() =~= Seq::<DirectiveView>::empty());
    assert(replay(st, seq![p]) == apply(replay(st, Seq::empty()), p));
    assert(replay(st, seq![p, s]) == apply(apply(st, p), s));
    assert(replay(st, seq![s]) == apply(replay(st, Seq::empty()), s));
    assert(replay(st, seq![s, p]) == apply(apply(st, s), p));
    assert(apply(st, p) == put(st, name, dosage));
    assert(apply(st, s) == withdraw(st, name));
    lemma_apply_keeps_keys_unique(st, p);
    assert(apply(put(st, name, dosage), s) == withdraw(put(st, name, dosage), name));
    lemma_lookup_withdraw(put(st, name, dosage), name);
    lemma_lookup_put(withdraw(st, name), name, dosage);
}

/// A maintenance directive leaves an active medication, and its dosage, as they are.
pub proof fn lemma_maintain_keeps_dosage(st: Seq<Entry>, d: DirectiveView)
    requires
        d.0 == kw_maintain(),
        lookup(st, d.1) is Some,
    ensures
        apply(st, d) == st,
{
    lemma_keywords_distinct();
}

/// A maintenance directive for an absent medication adds it at the given dosage.
pub proof fn lemma_maintain_inserts_absent(st: Seq<Entry>, d: DirectiveView)
    requires
        d.0 == kw_maintain(),
        lookup(st, d.1) is None,
    ensures
        apply(st, d) == st.push((d.1, d.2)),
        lookup(apply(st, d), d.1) == Some(d.2),
{
    lemma_keywords_distinct();
    lemma_lookup_put(st, d.1, d.2);
}

/// A suspension of an absent medication changes nothing.
pub proof fn lemma_suspend_absent_is_noop(st: Seq<Entry>, d: DirectiveView)
    requires
        d.0 == kw_suspend(),
        lookup(st, d.1) is None,
    ensures
        apply(st, d) == st,
{
    lemma_keywords_distinct();
}

fn position_exec(st: &Vec<Medication>, name: &String) -> (r: Option<usize>)
    ensures
        match r {
            Some(k) => position(entries_view(st@), name@) == Some(k as int) && k < st@.len(),
            None => position(entries_view(st@), name@) is None,
        },
{
    let ghost v = entries_view(st@);
    proof {
        lemma_position(v, name@);
    }
    let mut i: usize = 0;
    while i < st.len()
        invariant
            v == entries_view(st@),
            i <= st@.len(),
            position(v, name@) == position_from(v, name@, i as int),
        decreases st@.len() - i,
    {
        if st[i].name == *name {
            return Some(i);
        }
        i += 1;
    }
    None
}

fn put_exec(st: &mut Vec<Medication>, name: &String, dosage: &String)
    ensures
        entries_view(final(st)@) == put(entries_view(old(st)@), name@, dosage@),
{
    let m = Medication { name: name.clone(), dosage: dosage.clone() };
    match position_exec(st, name) {
        Some(k) => {
            st[k] = m;
            assert(entries_view(st@) =~= entries_view(old(st)@).update(k as int, (name@, dosage@)));
        },
        None => {
            st.push(m);
            assert(entries_view(st@) =~= entries_view(old(st)@).push((name@, dosage@)));
        },
    }
}

/// Apply one directive to the active medications.
pub fn apply_directive(st: &mut Vec<Medication>, d: &Directive)
    ensures
        entries_view(final(st)@) == apply(entries_view(old(st)@), d@),
{
    let prescribe = String::from_str("PRESCREVO");
    let adjust = String::from_str("AJUSTO");
    let suspend = String::from_str("SUSPENDO");
    let maintain = String::from_str("MANTENHO");
    if d.action == prescribe || d.action == adjust {
        put_exec(st, &d.medication, &d.dosage);
    } else if d.action == suspend {
        match position_exec(st, &d.medication) {
            Some(k) => {
                st.remove(k);
                assert(entries_view(st@) =~= entries_view(old(st)@).remove(k as int));
            },
            None => {},
        }
    } else if d.action == maintain {
        if position_exec(st, &d.medication).is_none() {
            put_exec(st, &d.medication, &d.dosage);
        }
    }
}

/// Apply directives in order.
pub fn replay_directives(st: &mut Vec<Medication>, ds: &Vec<Directive>)
    ensures
        entries_view(final(st)@) == replay(
            entries_view(old(st)@),
            crate::directive::directives_view(ds@),
        ),
{
    let ghost dv = crate::directive::directives_view(ds@);
    let mut i: usize = 0;
    while i < ds.len()
        invariant
            dv == crate::directive::directives_view(ds@),
            i <= ds@.len(),
            entries_view(st@) == replay(entries_view(old(st)@), dv.subrange(0, i as int)),
        decreases ds@.len() - i,
    {
        apply_directive(st, &ds[i]);
        assert(dv.subrange(0, i + 1).drop_last() =~= dv.subrange(0, i as int));
        i += 1;
    }
    assert(dv.subrange(0, i as int) =~= dv);
}

} // verus!
