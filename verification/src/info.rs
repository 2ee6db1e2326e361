//! The info-metric registry.
//!
//! An info metric publishes a fixed label set with the constant value 1. At
//! most one instance lives per declared record type: the registry is keyed by
//! type identity, not by name, so two record types that happen to share an
//! exposition name never collide as keys, and reporting a type again
//! replaces its previous instance wholesale.

use std::any::TypeId;
use vstd::prelude::*;

use crate::text::{
    append_escaped_help, append_escaped_label, append_str, escape_help_bytes, escape_label_bytes,
    utf8,
};

verus! {

#[verifier::external_type_specification]
#[verifier::external_body]
pub struct ExTypeId(TypeId);

/// Relies on `std::any::TypeId::of`: one identity value per type, the same
/// on every call within a process.
#[verifier::external_body]
fn type_key<M: InfoMetric>() -> (r: TypeId) {
    TypeId::of::<M>()
}

/// Relies on `TypeId`'s derived `PartialEq`: two type identity values are
/// equal exactly when they are the same identity.
#[verifier::external_body]
fn type_id_eq(a: &TypeId, b: &TypeId) -> (r: bool)
    ensures
        r == (*a == *b),
{
    a == b
}

/// One label of an info metric.
pub struct Label {
    pub name: String,
    pub value: String,
}

/// The model of a label.
pub struct LabelModel {
    pub name: Seq<char>,
    pub value: Seq<char>,
}

impl View for Label {
    type V = LabelModel;

    open spec fn view(&self) -> LabelModel {
        LabelModel { name: self.name@, value: self.value@ }
    }
}

/// An info metric record: a fixed name and help text, and a field set that
/// serializes into labels. Serialization may fail for an unsupported value
/// shape; the failure surfaces when the registry is collected, not when the
/// record is reported.
pub trait InfoMetric: Sized + 'static {
    /// The exposition name of the metric.
    fn name(&self) -> &'static str;

    /// The help message of the metric.
    fn help(&self) -> &'static str;

    /// The record's fields as a label set.
    fn encode_labels(&self) -> Result<Vec<Label>, String>;
}

/// One stored info metric: the reporting type's identity, its name and help,
/// and the outcome of serializing the reported instance into labels.
pub struct InfoEntry {
    pub key: TypeId,
    pub name: &'static str,
    pub help: &'static str,
    pub labels: Result<Vec<Label>, String>,
}

/// The model of a stored info metric.
pub struct InfoEntryModel {
    pub key: TypeId,
    pub name: Seq<char>,
    pub help: Seq<char>,
    pub labels: Result<Seq<LabelModel>, Seq<char>>,
}

impl View for InfoEntry {
    type V = InfoEntryModel;

    open spec fn view(&self) -> InfoEntryModel {
        InfoEntryModel {
            key: self.key,
            name: self.name@,
            help: self.help@,
            labels: match self.labels {
                Ok(ls) => Ok(ls@.map_values(|l: Label| l@)),
                Err(ref e) => Err(e@),
            },
        }
    }
}

/// Index of the entry stored under `k`, or a negative value.
pub open spec fn find_key(s: Seq<InfoEntryModel>, k: TypeId) -> int
    decreases s.len(),
{
    if s.len() == 0 {
        -1
    } else if s[0].key == k {
        0
    } else {
        let r = find_key(s.drop_first(), k);
        if r < 0 {
            -1
        } else {
            r + 1
        }
    }
}

/// What `find_key` returns: the first match, or a negative value when no
/// entry has the key.
pub proof fn lemma_find_key(s: Seq<InfoEntryModel>, k: TypeId)
    ensures
        find_key(s, k) < 0 ==> forall|i: int| 0 <= i < s.len() ==> s[i].key != k,
        find_key(s, k) >= 0 ==> {
            &&& find_key(s, k) < s.len()
            &&& s[find_key(s, k)].key == k
            &&& forall|i: int| 0 <= i < find_key(s, k) ==> s[i].key != k
        },
    decreases s.len(),
{
    if s.len() != 0 && s[0].key != k {
        let tail = s.drop_first();
        lemma_find_key(tail, k);
        let r = find_key(tail, k);
        if r < 0 {
            assert forall|i: int| 0 <= i < s.len() implies s[i].key != k by {
                if i >= 1 {
                    assert(tail[i - 1] == s[i]);
                }
            }
        } else {
            assert(s[r + 1] == tail[r]);
            assert forall|i: int| 0 <= i < r + 1 implies s[i].key != k by {
                if i >= 1 {
                    assert(tail[i - 1] == s[i]);
                }
            }
        }
    }
}

/// The first index whose entry matches is what `find_key` returns.
pub proof fn lemma_find_key_is_first(s: Seq<InfoEntryModel>, k: TypeId, i: int)
    requires
        0 <= i < s.len(),
        s[i].key == k,
        forall|j: int| 0 <= j < i ==> s[j].key != k,
    ensures
        find_key(s, k) == i,
    decreases s.len(),
{
    if i > 0 {
        let tail = s.drop_first();
        assert(tail[i - 1] == s[i]);
        assert forall|j: int| 0 <= j < i - 1 implies tail[j].key != k by {
            assert(tail[j] == s[j + 1]);
        }
        lemma_find_key_is_first(tail, k, i - 1);
    }
}

/// A keyed insertion: the entry under the same key is replaced in place, or
/// the new entry is appended; nothing else moves.
pub open spec fn info_insert(s: Seq<InfoEntryModel>, e: InfoEntryModel) -> Seq<InfoEntryModel> {
    let j = find_key(s, e.key);
    if j < 0 {
        s.push(e)
    } else {
        s.update(j, e)
    }
}

/// Reporting under one key is idempotent in the strongest sense: a second
/// insertion under the same key leaves exactly the state that the second
/// insertion alone would have left, so the registry holds one record per
/// type, reflecting only the most recent report.
pub proof fn lemma_info_insert_last_wins(
    s: Seq<InfoEntryModel>,
    e1: InfoEntryModel,
    e2: InfoEntryModel,
)
    requires
        e1.key == e2.key,
    ensures
        info_insert(info_insert(s, e1), e2) == info_insert(s, e2),
{
    let k = e1.key;
    lemma_find_key(s, k);
    let j = find_key(s, k);
    if j < 0 {
        let s1 = s.push(e1);
        assert(s1[s.len() as int].key == k);
        assert forall|i: int| 0 <= i < s.len() implies s1[i].key != k by {
            assert(s1[i] == s[i]);
        }
        lemma_find_key_is_first(s1, k, s.len() as int);
        assert(info_insert(s1, e2) =~= s.push(e2));
    } else {
        let s1 = s.update(j, e1);
        assert(s1[j].key == k);
        assert forall|i: int| 0 <= i < j implies s1[i].key != k by {
            assert(s1[i] == s[i]);
        }
        lemma_find_key_is_first(s1, k, j);
        assert(info_insert(s1, e2) =~= s.update(j, e2));
    }
}

/// The registry of info metrics, keyed by type identity.
pub struct InfoRegistry {
    entries: Vec<InfoEntry>,
}

impl View for InfoRegistry {
    type V = Seq<InfoEntryModel>;

    closed spec fn view(&self) -> Seq<InfoEntryModel> {
        self.entries@.map_values(|e: InfoEntry| e@)
    }
}

impl InfoRegistry {
    /// No two entries share a key.
    pub closed spec fn wf(&self) -> bool {
        forall|i: int, j: int|
            0 <= i < j < self.entries@.len() ==> self.entries@[i]@.key != self.entries@[j]@.key
    }

    /// A fresh, empty registry.
    pub fn new() -> (r: InfoRegistry)
        ensures
            r.wf(),
            r@ == Seq::<InfoEntryModel>::empty(),
    {
        let r = InfoRegistry { entries: Vec::new() };
        proof {
            assert(r@ =~= Seq::<InfoEntryModel>::empty());
        }
        r
    }

    /// Stores `e` under its key, replacing any entry of the same key.
    pub fn insert_entry(&mut self, e: InfoEntry)
        requires
            old(self).wf(),
        ensures
            final(self).wf(),
            final(self)@ == info_insert(old(self)@, e@),
    {
        let ghost em = e@;
        let n = self.entries.len();
        let mut i: usize = 0;
        while i < n
            invariant
                n == self.entries@.len(),
                0 <= i <= n,
                *self == *old(self),
                old(self).wf(),
                em == e@,
                forall|k: int| 0 <= k < i ==> self.entries@[k]@.key != em.key,
            decreases n - i,
        {
            if type_id_eq(&self.entries[i].key, &e.key) {
                proof {
                    assert(self@[i as int] == self.entries@[i as int]@);
                    assert forall|k: int| 0 <= k < i implies self@[k].key != em.key by {
                        assert(self@[k] == self.entries@[k]@);
                    }
                    lemma_find_key_is_first(self@, em.key, i as int);
                }
                self.entries[i] = e;
                proof {
                    assert(self@ =~= old(self)@.update(i as int, em));
                    assert forall|a: int, b: int|
                        0 <= a < b < self.entries@.len() implies self.entries@[a]@.key
                        != self.entries@[b]@.key by {
                        if a != i as int {
                            assert(self.entries@[a] == old(self).entries@[a]);
                        }
                        if b != i as int {
                            assert(self.entries@[b] == old(self).entries@[b]);
                        }
                        assert(old(self).entries@[a]@.key != old(self).entries@[b]@.key);
                    }
                }
                return ;
            }
            proof {
                assert(self@[i as int] == self.entries@[i as int]@);
            }
            i = i + 1;
        }
        proof {
            lemma_find_key(self@, em.key);
            assert forall|k: int| 0 <= k < self@.len() implies self@[k].key != em.key by {
                assert(self@[k] == self.entries@[k]@);
            }
            if find_key(self@, em.key) >= 0 {
                assert(false);
            }
        }
        self.entries.push(e);
        proof {
            assert(self@ =~= old(self)@.push(em));
            assert forall|a: int, b: int|
                0 <= a < b < self.entries@.len() implies self.entries@[a]@.key
                != self.entries@[b]@.key by {
                if b < old(self).entries@.len() {
                    assert(self.entries@[a] == old(self).entries@[a]);
                    assert(self.entries@[b] == old(self).entries@[b]);
                    assert(old(self).entries@[a]@.key != old(self).entries@[b]@.key);
                } else {
                    assert(self.entries@[b]@ == em);
                    assert(self.entries@[a] == old(self).entries@[a]);
                    assert(old(self).entries@[a]@.key != em.key);
                }
            }
        }
    }
}

/// Reports an info metric: stores the instance's name, help and serialized
/// field set under the identity of its type, replacing any earlier report of
/// the same type. The entry's content is whatever the record's own
/// `InfoMetric` methods return; its key is the type's identity, so two
/// reports of one type land on one entry.
pub fn report_info<M: InfoMetric>(registry: &mut InfoRegistry, info_metric: M)
    requires
        old(registry).wf(),
    ensures
        final(registry).wf(),
        exists|e: InfoEntryModel| final(registry)@ == info_insert(old(registry)@, e),
{
    let key = type_key::<M>();
    let name = info_metric.name();
    let help = info_metric.help();
    let labels = info_metric.encode_labels();
    let entry = InfoEntry { key, name, help, labels };
    registry.insert_entry(entry);
}

/// Every stored record serialized cleanly.
pub open spec fn infos_ok(s: Seq<InfoEntryModel>) -> bool {
    forall|i: int| 0 <= i < s.len() ==> (#[trigger] s[i].labels) is Ok
}

/// Index of the first record whose serialization failed, or a negative
/// value.
pub open spec fn find_err(s: Seq<InfoEntryModel>, n: int) -> int
    decreases n,
{
    if n <= 0 {
        -1
    } else if find_err(s, n - 1) >= 0 {
        find_err(s, n - 1)
    } else if s[n - 1].labels is Err {
        n - 1
    } else {
        -1
    }
}

/// The comma-separated label pairs of an info record.
pub open spec fn info_pairs_doc(ls: Seq<LabelModel>, n: int) -> Seq<u8>
    decreases n,
{
    if n <= 0 {
        Seq::empty()
    } else if n == 1 {
        crate::registry::pair_doc(ls[0].name, ls[0].value)
    } else {
        info_pairs_doc(ls, n - 1) + utf8(","@) + crate::registry::pair_doc(
            ls[n - 1].name,
            ls[n - 1].value,
        )
    }
}

/// The label block of an info record, empty when it has no fields.
pub open spec fn info_label_block(ls: Seq<LabelModel>) -> Seq<u8> {
    if ls.len() == 0 {
        Seq::empty()
    } else {
        utf8("{"@) + info_pairs_doc(ls, ls.len() as int) + utf8("}"@)
    }
}

/// One info record as exposition text: headers, then one sample whose value
/// is always 1.
pub open spec fn info_entry_doc(e: InfoEntryModel) -> Seq<u8> {
    utf8("# HELP "@) + utf8(e.name) + utf8(" "@) + escape_help_bytes(utf8(e.help)) + utf8("\n"@)
        + utf8("# TYPE "@) + utf8(e.name) + utf8(" gauge\n"@) + utf8(e.name) + info_label_block(
        e.labels->Ok_0,
    ) + utf8(" 1\n"@)
}

/// The first `n` info records.
pub open spec fn infos_doc(s: Seq<InfoEntryModel>, n: int) -> Seq<u8>
    decreases n,
{
    if n <= 0 {
        Seq::empty()
    } else {
        infos_doc(s, n - 1) + info_entry_doc(s[n - 1])
    }
}

impl InfoRegistry {
    /// Appends every stored info record to `out`, in insertion order. If any
    /// record failed to serialize, nothing at all is appended and the first
    /// failure's message is returned.
    #[verifier::rlimit(100)]
    #[verifier::spinoff_prover]
    pub fn encode(&self, out: &mut Vec<u8>) -> (r: Result<(), String>)
        ensures
            r.is_ok() <==> infos_ok(self@),
            r.is_ok() ==> final(out)@ == old(out)@ + infos_doc(self@, self@.len() as int),
            r.is_err() ==> final(out)@ == old(out)@ && {
                let j = find_err(self@, self@.len() as int);
                &&& 0 <= j < self@.len()
                &&& r->Err_0@ == self@[j].labels->Err_0
            },
    {
        let n = self.entries.len();
        let mut i: usize = 0;
        while i < n
            invariant
                n == self.entries@.len(),
                0 <= i <= n,
                forall|k: int| 0 <= k < i ==> (#[trigger] self@[k].labels) is Ok,
                find_err(self@, i as int) < 0,
            decreases n - i,
        {
            proof {
                assert(self@[i as int] == self.entries@[i as int]@);
            }
            match &self.entries[i].labels {
                Ok(_) => {},
                Err(msg) => {
                    let m = msg.clone();
                    proof {
                        assert(self@[i as int].labels is Err);
                        assert(find_err(self@, i + 1) == i as int);
                        lemma_find_err_stable(self@, i + 1, self@.len() as int);
                    }
                    return Err(m);
                },
            }
            i = i + 1;
        }
        proof {
            assert forall|k: int| 0 <= k < self@.len() implies (#[trigger] self@[k].labels)
                is Ok by {}
        }
        let mut i2: usize = 0;
        while i2 < n
            invariant
                n == self.entries@.len(),
                0 <= i2 <= n,
                infos_ok(self@),
                out@ == old(out)@ + infos_doc(self@, i2 as int),
            decreases n - i2,
        {
            proof {
                assert(self@[i2 as int] == self.entries@[i2 as int]@);
            }
            let e = &self.entries[i2];
            let ghost em = e@;
            let ghost start = out@;
            append_str(out, "# HELP ");
            append_str(out, e.name);
            append_str(out, " ");
            append_escaped_help(out, e.help);
            append_str(out, "\n");
            append_str(out, "# TYPE ");
            append_str(out, e.name);
            append_str(out, " gauge\n");
            append_str(out, e.name);
            match &e.labels {
                Ok(ls) => {
                    encode_info_labels(out, ls);
                },
                Err(_) => {
                    proof {
                        assert(em.labels is Ok);
                        assert(false);
                    }
                },
            }
            append_str(out, " 1\n");
            proof {
                assert(out@ =~= start + info_entry_doc(em));
                assert(out@ =~= old(out)@ + infos_doc(self@, i2 + 1));
            }
            i2 = i2 + 1;
        }
        Ok(())
    }
}

/// A failure found below `n` stays the first failure at any wider horizon.
proof fn lemma_find_err_stable(s: Seq<InfoEntryModel>, n1: int, n2: int)
    requires
        0 < n1 <= n2,
        find_err(s, n1) >= 0,
    ensures
        find_err(s, n2) == find_err(s, n1),
    decreases n2,
{
    if n2 > n1 {
        lemma_find_err_stable(s, n1, n2 - 1);
    }
}

/// Appends an info record's label block to `out`.
fn encode_info_labels(out: &mut Vec<u8>, ls: &Vec<Label>)
    ensures
        final(out)@ == old(out)@ + info_label_block(ls@.map_values(|l: Label| l@)),
{
    let ghost lm = ls@.map_values(|l: Label| l@);
    if ls.len() == 0 {
        return ;
    }
    append_str(out, "{");
    let n = ls.len();
    let mut i: usize = 0;
    while i < n
        invariant
            n == ls@.len(),
            lm == ls@.map_values(|l: Label| l@),
            n == lm.len(),
            n > 0,
            0 <= i <= n,
            out@ == old(out)@ + utf8("{"@) + info_pairs_doc(lm, i as int),
        decreases n - i,
    {
        if i > 0 {
            append_str(out, ",");
        }
        append_str(out, ls[i].name.as_str());
        append_str(out, "=\"");
        append_escaped_label(out, ls[i].value.as_str());
        append_str(out, "\"");
        proof {
            assert(lm[i as int] == ls@[i as int]@);
            assert(out@ =~= old(out)@ + utf8("{"@) + info_pairs_doc(lm, i + 1));
        }
        i = i + 1;
    }
    append_str(out, "}");
    proof {
        assert(out@ =~= old(out)@ + info_label_block(lm));
    }
}

} // verus!
