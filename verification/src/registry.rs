//! Metric families and the registry holding them.
//!
//! A family is a named group of metric instances differing only by label
//! values; an instance is created lazily the first time its label combination
//! is observed and retained indefinitely. A registry is a list of families
//! with pairwise distinct names; two registries exist per process universe,
//! one standard and one optional, and are modelled identically.

use vstd::prelude::*;

use crate::metric::{
    count_le, sorted_strict, sum_obs, w64, wdec_i64, winc_i64, Counter, Gauge, Histogram,
    HistogramBuilder, HistogramModel,
};
use crate::text::{
    dec_bytes, dec_bytes_signed, escape_help_bytes, escape_label_bytes, utf8, append_escaped_help,
    append_escaped_label, append_i64, append_str, append_u64,
};

verus! {

/// Relies on `<str as PartialEq>::eq`: two string slices are equal exactly
/// when their text is.
#[verifier::external_body]
fn str_eq(a: &str, b: &str) -> (r: bool)
    ensures
        r == (a@ == b@),
{
    a == b
}

/// A live metric instance.
pub enum Metric {
    Counter(Counter),
    Gauge(Gauge),
    Histogram(Histogram),
}

/// The model of a live metric instance.
pub enum MetricModel {
    Counter(u64),
    Gauge(i64),
    Histogram(HistogramModel),
}

impl View for Metric {
    type V = MetricModel;

    closed spec fn view(&self) -> MetricModel {
        match self {
            Metric::Counter(c) => MetricModel::Counter(c@),
            Metric::Gauge(g) => MetricModel::Gauge(g@),
            Metric::Histogram(h) => MetricModel::Histogram(h@),
        }
    }
}

/// What kind of metric a family holds; a histogram family carries the
/// constructor used for every fresh label combination.
pub enum FamilyKind {
    Counter,
    Gauge,
    Histogram(HistogramBuilder),
}

/// The model of a family kind; a histogram kind is its bucket bounds.
pub enum KindModel {
    Counter,
    Gauge,
    Histogram(Seq<u64>),
}

impl View for FamilyKind {
    type V = KindModel;

    closed spec fn view(&self) -> KindModel {
        match self {
            FamilyKind::Counter => KindModel::Counter,
            FamilyKind::Gauge => KindModel::Gauge,
            FamilyKind::Histogram(b) => KindModel::Histogram(b.buckets@),
        }
    }
}

/// The character sequences of a list of strings.
pub open spec fn str_views(v: Seq<String>) -> Seq<Seq<char>> {
    v.map_values(|s: String| s@)
}

/// One label combination of a family together with its metric.
pub struct Instance {
    label_values: Vec<String>,
    metric: Metric,
}

/// The model of an instance: its label values and its metric.
pub struct InstanceModel {
    pub labels: Seq<Seq<char>>,
    pub metric: MetricModel,
}

impl View for Instance {
    type V = InstanceModel;

    closed spec fn view(&self) -> InstanceModel {
        InstanceModel { labels: str_views(self.label_values@), metric: self.metric@ }
    }
}

/// A named, label-parameterized metric family.
pub struct Family {
    name: String,
    help: String,
    label_names: Vec<String>,
    kind: FamilyKind,
    instances: Vec<Instance>,
}

/// The model of a family.
pub struct FamilyModel {
    pub name: Seq<char>,
    pub help: Seq<char>,
    pub label_names: Seq<Seq<char>>,
    pub kind: KindModel,
    pub instances: Seq<InstanceModel>,
}

impl View for Family {
    type V = FamilyModel;

    closed spec fn view(&self) -> FamilyModel {
        FamilyModel {
            name: self.name@,
            help: self.help@,
            label_names: str_views(self.label_names@),
            kind: self.kind@,
            instances: self.instances@.map_values(|i: Instance| i@),
        }
    }
}

/// An instance fits its family: right label arity, right metric kind, and a
/// histogram instance is well-formed over exactly the family's bounds.
pub open spec fn inst_fits(fm: FamilyModel, im: InstanceModel) -> bool {
    &&& im.labels.len() == fm.label_names.len()
    &&& match (fm.kind, im.metric) {
        (KindModel::Counter, MetricModel::Counter(_)) => true,
        (KindModel::Gauge, MetricModel::Gauge(_)) => true,
        (KindModel::Histogram(bounds), MetricModel::Histogram(h)) => h.bounds == bounds,
        _ => false,
    }
}

/// A histogram instance carries coherent bucket counts.
pub closed spec fn inst_metric_wf(inst: Instance) -> bool {
    match inst.metric {
        Metric::Histogram(h) => h.wf(),
        _ => true,
    }
}

/// The exec-level invariant of a family.
impl Family {
    pub closed spec fn wf(&self) -> bool {
        &&& forall|i: int|
            0 <= i < self.instances@.len() ==> inst_fits(self@, #[trigger] self.instances@[i]@)
        &&& forall|i: int|
            0 <= i < self.instances@.len() ==> inst_metric_wf(#[trigger] self.instances@[i])
        &&& forall|i: int, j: int|
            0 <= i < j < self.instances@.len() ==> self.instances@[i]@.labels
                != self.instances@[j]@.labels
        &&& match self.kind {
            FamilyKind::Histogram(b) => sorted_strict(b.buckets@),
            _ => true,
        }
    }
}

/// A registry: a list of families with pairwise distinct names.
pub struct Registry {
    families: Vec<Family>,
}

impl View for Registry {
    type V = Seq<FamilyModel>;

    closed spec fn view(&self) -> Seq<FamilyModel> {
        self.families@.map_values(|f: Family| f@)
    }
}

/// Why a registry operation was refused.
#[derive(Clone, Copy, Debug, PartialEq, Eq, Structural)]
pub enum RegistryError {
    /// A family with that name is already registered.
    DuplicateFamily,
    /// No family with that name is registered.
    UnknownFamily,
    /// The family holds another kind of metric.
    KindMismatch,
    /// The number of label values does not match the family's label schema.
    LabelArity,
}

/// Index of the family named `name`, or a negative value if there is none.
pub open spec fn find_fam(fs: Seq<FamilyModel>, name: Seq<char>) -> int
    decreases fs.len(),
{
    if fs.len() == 0 {
        -1
    } else if fs[0].name == name {
        0
    } else {
        let r = find_fam(fs.drop_first(), name);
        if r < 0 {
            -1
        } else {
            r + 1
        }
    }
}

/// Index of the instance with label values `ls`, or a negative value.
pub open spec fn find_inst(is: Seq<InstanceModel>, ls: Seq<Seq<char>>) -> int
    decreases is.len(),
{
    if is.len() == 0 {
        -1
    } else if is[0].labels == ls {
        0
    } else {
        let r = find_inst(is.drop_first(), ls);
        if r < 0 {
            -1
        } else {
            r + 1
        }
    }
}

/// What `find_fam` returns: the first match, or a negative value when no
/// family has the name.
pub proof fn lemma_find_fam(fs: Seq<FamilyModel>, name: Seq<char>)
    ensures
        find_fam(fs, name) < 0 ==> forall|i: int| 0 <= i < fs.len() ==> fs[i].name != name,
        find_fam(fs, name) >= 0 ==> {
            &&& find_fam(fs, name) < fs.len()
            &&& fs[find_fam(fs, name)].name == name
            &&& forall|i: int| 0 <= i < find_fam(fs, name) ==> fs[i].name != name
        },
    decreases fs.len(),
{
    if fs.len() != 0 && fs[0].name != name {
        let tail = fs.drop_first();
        lemma_find_fam(tail, name);
        let r = find_fam(tail, name);
        if r < 0 {
            assert forall|i: int| 0 <= i < fs.len() implies fs[i].name != name by {
                if i >= 1 {
                    assert(tail[i - 1] == fs[i]);
                }
            }
        } else {
            assert(fs[r + 1] == tail[r]);
            assert forall|i: int| 0 <= i < r + 1 implies fs[i].name != name by {
                if i >= 1 {
                    assert(tail[i - 1] == fs[i]);
                }
            }
        }
    }
}

/// The first index whose entry matches is what `find_fam` returns.
pub proof fn lemma_find_fam_is_first(fs: Seq<FamilyModel>, name: Seq<char>, i: int)
    requires
        0 <= i < fs.len(),
        fs[i].name == name,
        forall|k: int| 0 <= k < i ==> fs[k].name != name,
    ensures
        find_fam(fs, name) == i,
    decreases fs.len(),
{
    if i > 0 {
        let tail = fs.drop_first();
        assert(tail[i - 1] == fs[i]);
        assert forall|k: int| 0 <= k < i - 1 implies tail[k].name != name by {
            assert(tail[k] == fs[k + 1]);
        }
        lemma_find_fam_is_first(tail, name, i - 1);
    }
}

/// What `find_inst` returns, in the same shape.
pub proof fn lemma_find_inst(is: Seq<InstanceModel>, ls: Seq<Seq<char>>)
    ensures
        find_inst(is, ls) < 0 ==> forall|i: int| 0 <= i < is.len() ==> is[i].labels != ls,
        find_inst(is, ls) >= 0 ==> {
            &&& find_inst(is, ls) < is.len()
            &&& is[find_inst(is, ls)].labels == ls
            &&& forall|i: int| 0 <= i < find_inst(is, ls) ==> is[i].labels != ls
        },
    decreases is.len(),
{
    if is.len() != 0 && is[0].labels != ls {
        let tail = is.drop_first();
        lemma_find_inst(tail, ls);
        let r = find_inst(tail, ls);
        if r < 0 {
            assert forall|i: int| 0 <= i < is.len() implies is[i].labels != ls by {
                if i >= 1 {
                    assert(tail[i - 1] == is[i]);
                }
            }
        } else {
            assert(is[r + 1] == tail[r]);
            assert forall|i: int| 0 <= i < r + 1 implies is[i].labels != ls by {
                if i >= 1 {
                    assert(tail[i - 1] == is[i]);
                }
            }
        }
    }
}

/// The first index whose entry matches is what `find_inst` returns.
pub proof fn lemma_find_inst_is_first(is: Seq<InstanceModel>, ls: Seq<Seq<char>>, i: int)
    requires
        0 <= i < is.len(),
        is[i].labels == ls,
        forall|k: int| 0 <= k < i ==> is[k].labels != ls,
    ensures
        find_inst(is, ls) == i,
    decreases is.len(),
{
    if i > 0 {
        let tail = is.drop_first();
        assert(tail[i - 1] == is[i]);
        assert forall|k: int| 0 <= k < i - 1 implies tail[k].labels != ls by {
            assert(tail[k] == is[k + 1]);
        }
        lemma_find_inst_is_first(tail, ls, i - 1);
    }
}

/// Whether the labels of `a` spell the same text as those of `b`.
fn labels_equal(a: &Vec<String>, b: &Vec<String>) -> (r: bool)
    ensures
        r == (str_views(a@) == str_views(b@)),
{
    if a.len() != b.len() {
        proof {
            assert(str_views(a@).len() == a@.len());
            assert(str_views(b@).len() == b@.len());
        }
        return false;
    }
    let n = a.len();
    let mut i: usize = 0;
    while i < n
        invariant
            n == a@.len(),
            n == b@.len(),
            0 <= i <= n,
            forall|k: int| 0 <= k < i ==> a@[k]@ == b@[k]@,
        decreases n - i,
    {
        if !(a[i] == b[i]) {
            proof {
                assert(str_views(a@)[i as int] == a@[i as int]@);
                assert(str_views(b@)[i as int] == b@[i as int]@);
            }
            return false;
        }
        i = i + 1;
    }
    proof {
        assert forall|k: int| 0 <= k < n implies str_views(a@)[k] == str_views(b@)[k] by {
            assert(str_views(a@)[k] == a@[k]@);
            assert(str_views(b@)[k] == b@[k]@);
        }
        assert(str_views(a@) =~= str_views(b@));
    }
    true
}

impl Family {
    /// Looks up the instance with these label values.
    fn find_instance(&self, values: &Vec<String>) -> (r: Option<usize>)
        ensures
            match r {
                Some(j) => 0 <= j < self@.instances.len() && find_inst(
                    self@.instances,
                    str_views(values@),
                ) == j,
                None => find_inst(self@.instances, str_views(values@)) < 0,
            },
    {
        let ghost ls = str_views(values@);
        let n = self.instances.len();
        let mut i: usize = 0;
        while i < n
            invariant
                n == self.instances@.len(),
                0 <= i <= n,
                forall|k: int| 0 <= k < i ==> self.instances@[k]@.labels != ls,
                ls == str_views(values@),
            decreases n - i,
        {
            if labels_equal(&self.instances[i].label_values, values) {
                proof {
                    assert(self@.instances[i as int] == self.instances@[i as int]@);
                    assert forall|k: int| 0 <= k < i implies self@.instances[k].labels != ls by {
                        assert(self@.instances[k] == self.instances@[k]@);
                    }
                    lemma_find_inst_is_first(self@.instances, ls, i as int);
                }
                return Some(i);
            }
            i = i + 1;
        }
        proof {
            lemma_find_inst(self@.instances, ls);
            if find_inst(self@.instances, ls) >= 0 {
                let j = find_inst(self@.instances, ls);
                assert(self@.instances[j] == self.instances@[j]@);
                assert(false);
            }
        }
        None
    }
}

/// A counter metric after `n` more events.
pub open spec fn counter_after(m: MetricModel, n: u64) -> MetricModel {
    match m {
        MetricModel::Counter(c) => MetricModel::Counter(w64(c + n)),
        _ => m,
    }
}

/// The instances of a counter family after `n` events for labels `ls`: the
/// matching instance is bumped, or a fresh one is appended; nothing else
/// changes.
pub open spec fn insts_inc_counter(
    is: Seq<InstanceModel>,
    ls: Seq<Seq<char>>,
    n: u64,
) -> Seq<InstanceModel> {
    let j = find_inst(is, ls);
    if j < 0 {
        is.push(InstanceModel { labels: ls, metric: MetricModel::Counter(w64(n as int)) })
    } else {
        is.update(j, InstanceModel { labels: ls, metric: counter_after(is[j].metric, n) })
    }
}

impl Registry {
    /// Every family is well-formed and no two families share a name.
    pub closed spec fn wf(&self) -> bool {
        &&& forall|i: int| 0 <= i < self.families@.len() ==> (#[trigger] self.families@[i]).wf()
        &&& forall|i: int, j: int|
            0 <= i < j < self.families@.len() ==> self.families@[i]@.name
                != self.families@[j]@.name
    }

    /// A fresh, empty registry.
    pub fn new() -> (r: Registry)
        ensures
            r.wf(),
            r@ == Seq::<FamilyModel>::empty(),
    {
        let r = Registry { families: Vec::new() };
        proof {
            assert(r@ =~= Seq::<FamilyModel>::empty());
        }
        r
    }

    /// Registers a new family under `name`. A second family under the same
    /// name is refused: duplicate registration is a startup-time programmer
    /// error, not something reconciled at runtime.
    pub fn register_family(
        &mut self,
        name: String,
        help: String,
        label_names: Vec<String>,
        kind: FamilyKind,
    ) -> (r: Result<(), RegistryError>)
        requires
            old(self).wf(),
            match kind {
                FamilyKind::Histogram(b) => sorted_strict(b.buckets@),
                _ => true,
            },
        ensures
            final(self).wf(),
            r.is_ok() <==> find_fam(old(self)@, name@) < 0,
            r.is_ok() ==> final(self)@ == old(self)@.push(
                FamilyModel {
                    name: name@,
                    help: help@,
                    label_names: str_views(label_names@),
                    kind: kind@,
                    instances: Seq::empty(),
                },
            ),
            r.is_err() ==> *final(self) == *old(self) && r == Err::<(), RegistryError>(
                RegistryError::DuplicateFamily,
            ),
    {
        let n = self.families.len();
        let mut i: usize = 0;
        while i < n
            invariant
                n == self.families@.len(),
                0 <= i <= n,
                *self == *old(self),
                old(self).wf(),
                forall|k: int| 0 <= k < i ==> self.families@[k]@.name != name@,
            decreases n - i,
        {
            if str_eq(self.families[i].name.as_str(), name.as_str()) {
                proof {
                    lemma_find_fam_is_first(self@, name@, i as int);
                }
                return Err(RegistryError::DuplicateFamily);
            }
            proof {
                assert(self.families@[i as int]@.name != name@);
            }
            i = i + 1;
        }
        proof {
            lemma_find_fam(self@, name@);
            assert(forall|k: int|
                0 <= k < self@.len() ==> self@[k] == #[trigger] self.families@[k]@);
            if find_fam(self@, name@) >= 0 {
                assert(self@[find_fam(self@, name@)].name == name@);
                assert(false);
            }
        }
        let ghost fm = FamilyModel {
            name: name@,
            help: help@,
            label_names: str_views(label_names@),
            kind: kind@,
            instances: Seq::empty(),
        };
        let fam = Family { name, help, label_names, kind, instances: Vec::new() };
        proof {
            assert(fam@.instances =~= Seq::<InstanceModel>::empty());
            assert(fam@ == fm);
        }
        self.families.push(fam);
        proof {
            assert(self@ =~= old(self)@.push(fm));
        }
        Ok(())
    }

    /// Looks up the family named `name`.
    fn find_family(&self, name: &str) -> (r: Option<usize>)
        ensures
            match r {
                Some(i) => 0 <= i < self@.len() && find_fam(self@, name@) == i,
                None => find_fam(self@, name@) < 0,
            },
    {
        let n = self.families.len();
        let mut i: usize = 0;
        while i < n
            invariant
                n == self.families@.len(),
                0 <= i <= n,
                forall|k: int| 0 <= k < i ==> self.families@[k]@.name != name@,
            decreases n - i,
        {
            if str_eq(self.families[i].name.as_str(), name) {
                proof {
                    assert(self@[i as int] == self.families@[i as int]@);
                    assert forall|k: int| 0 <= k < i implies self@[k].name != name@ by {
                        assert(self@[k] == self.families@[k]@);
                    }
                    lemma_find_fam_is_first(self@, name@, i as int);
                }
                return Some(i);
            }
            i = i + 1;
        }
        proof {
            lemma_find_fam(self@, name@);
            if find_fam(self@, name@) >= 0 {
                let j = find_fam(self@, name@);
                assert(self@[j] == self.families@[j]@);
                assert(false);
            }
        }
        None
    }

    /// Adds `n` events to the counter with these label values in the family
    /// named `name`, creating the instance at zero first if this is the
    /// label combination's first observation.
    pub fn inc_counter(&mut self, name: &str, values: Vec<String>, n: u64) -> (r: Result<
        (),
        RegistryError,
    >)
        requires
            old(self).wf(),
        ensures
            final(self).wf(),
            ({
                let fi = find_fam(old(self)@, name@);
                let ls = str_views(values@);
                if fi < 0 {
                    r == Err::<(), RegistryError>(RegistryError::UnknownFamily) && *final(self)
                        == *old(self)
                } else if !(old(self)@[fi].kind is Counter) {
                    r == Err::<(), RegistryError>(RegistryError::KindMismatch) && *final(self)
                        == *old(self)
                } else if old(self)@[fi].label_names.len() != ls.len() {
                    r == Err::<(), RegistryError>(RegistryError::LabelArity) && *final(self)
                        == *old(self)
                } else {
                    r.is_ok() && final(self)@ == old(self)@.update(
                        fi,
                        FamilyModel {
                            instances: insts_inc_counter(old(self)@[fi].instances, ls, n),
                            ..old(self)@[fi]
                        },
                    )
                }
            }),
    {
        let ghost ls = str_views(values@);
        let fi = match self.find_family(name) {
            None => {
                return Err(RegistryError::UnknownFamily);
            },
            Some(i) => i,
        };
        proof {
            assert(self@[fi as int] == self.families@[fi as int]@);
        }
        match &self.families[fi].kind {
            FamilyKind::Counter => {},
            _ => {
                return Err(RegistryError::KindMismatch);
            },
        }
        if self.families[fi].label_names.len() != values.len() {
            proof {
                assert(str_views(values@).len() == values@.len());
            }
            return Err(RegistryError::LabelArity);
        }
        proof {
            assert(str_views(values@).len() == values@.len());
        }
        let mut fam = self.families.remove(fi);
        let ghost fam0 = fam;
        let ghost fm0 = fam@;
        let ghost is0 = fam@.instances;
        proof {
            assert(fam0.wf());
        }
        match fam.find_instance(&values) {
            Some(j) => {
                let ghost j0 = j as int;
                proof {
                    lemma_find_inst(is0, ls);
                    assert(is0[j0].labels == ls);
                    assert(is0[j0] == fam.instances@[j0]@);
                    assert(inst_fits(fm0, is0[j0]));
                }
                let cur: u64 = match &fam.instances[j].metric {
                    Metric::Counter(c) => c.get(),
                    _ => vstd::pervasive::unreached(),
                };
                let mut c2 = Counter::new();
                c2.inc_by(cur);
                c2.inc_by(n);
                proof {
                    crate::metric::lemma_w64_add(cur as int, n as int);
                    vstd::arithmetic::div_mod::lemma_small_mod(
                        cur as nat,
                        0x1_0000_0000_0000_0000nat,
                    );
                }
                let inst2 = Instance { label_values: values, metric: Metric::Counter(c2) };
                let ghost inst2g = inst2;
                fam.instances[j] = inst2;
                proof {
                    assert(inst2g@.labels == ls);
                    assert(inst2g@.metric == counter_after(is0[j0].metric, n));
                    assert(fam.instances@ =~= fam0.instances@.update(j0, inst2g));
                    assert(inst_fits(fam@, inst2g@));
                    lemma_update_keeps_wf(fam0, fam, j0, inst2g);
                    assert(fam@.instances =~= is0.update(j0, inst2g@));
                    assert(fam@.instances =~= insts_inc_counter(is0, ls, n));
                }
            },
            None => {
                proof {
                    lemma_find_inst(is0, ls);
                }
                let mut c = Counter::new();
                c.inc_by(n);
                proof {
                    vstd::arithmetic::div_mod::lemma_small_mod(0nat, 0x1_0000_0000_0000_0000nat);
                }
                let inst2 = Instance { label_values: values, metric: Metric::Counter(c) };
                let ghost inst2g = inst2;
                fam.instances.push(inst2);
                proof {
                    assert(inst2g@.labels == ls);
                    assert(fam.instances@ =~= fam0.instances@.push(inst2g));
                    assert(inst_fits(fam@, inst2g@));
                    assert forall|k: int| 0 <= k < fam0.instances@.len() implies (
                    #[trigger] fam0.instances@[k])@.labels != inst2g@.labels by {
                        assert(is0[k] == fam0.instances@[k]@);
                    }
                    lemma_push_keeps_wf(fam0, fam, inst2g);
                    assert(fam@.instances =~= is0.push(inst2g@));
                    assert(fam@.instances =~= insts_inc_counter(is0, ls, n));
                }
            },
        }
        let ghost fam2e = fam;
        let ghost fm2 = fam@;
        self.families.insert(fi, fam);
        proof {
            assert(fm2 == FamilyModel {
                instances: insts_inc_counter(fm0.instances, ls, n),
                ..fm0
            });
            assert(self.families@ =~= old(self).families@.update(fi as int, fam2e));
            assert(self@ =~= old(self)@.update(fi as int, fm2));
            assert forall|k: int| 0 <= k < self.families@.len() implies (
            #[trigger] self.families@[k]).wf() by {
                if k == fi as int {
                    assert(self.families@[k] == fam2e);
                } else {
                    assert(self.families@[k] == old(self).families@[k]);
                }
            }
            assert forall|a: int, b: int|
                0 <= a < b < self.families@.len() implies self.families@[a]@.name
                != self.families@[b]@.name by {
                assert(old(self).families@[a]@.name != old(self).families@[b]@.name);
                if a == fi as int {
                    assert(self.families@[a] == fam2e);
                    assert(self.families@[b] == old(self).families@[b]);
                } else if b == fi as int {
                    assert(self.families@[b] == fam2e);
                    assert(self.families@[a] == old(self).families@[a]);
                } else {
                    assert(self.families@[a] == old(self).families@[a]);
                    assert(self.families@[b] == old(self).families@[b]);
                }
            }
        }
        Ok(())
    }
}

/// An update of a gauge: set it, or move it one step either way.
#[derive(Clone, Copy)]
pub enum GaugeOp {
    Assign(i64),
    Inc,
    Dec,
}

/// The value of a gauge after an update.
pub open spec fn gauge_apply(g: i64, op: GaugeOp) -> i64 {
    match op {
        GaugeOp::Assign(v) => v,
        GaugeOp::Inc => winc_i64(g),
        GaugeOp::Dec => wdec_i64(g),
    }
}

/// The instances of a gauge family after an update for labels `ls`: the
/// matching instance is updated, or a fresh one (starting at zero) is
/// updated and appended; nothing else changes.
pub open spec fn insts_gauge(is: Seq<InstanceModel>, ls: Seq<Seq<char>>, op: GaugeOp) -> Seq<
    InstanceModel,
> {
    let j = find_inst(is, ls);
    if j < 0 {
        is.push(InstanceModel { labels: ls, metric: MetricModel::Gauge(gauge_apply(0, op)) })
    } else {
        is.update(
            j,
            InstanceModel {
                labels: ls,
                metric: match is[j].metric {
                    MetricModel::Gauge(g) => MetricModel::Gauge(gauge_apply(g, op)),
                    m => m,
                },
            },
        )
    }
}

/// The instances of a histogram family after observing `v` for labels `ls`:
/// the matching instance records `v`, or a fresh instance over the family's
/// bounds records it and is appended; nothing else changes.
pub open spec fn insts_observe(
    is: Seq<InstanceModel>,
    ls: Seq<Seq<char>>,
    bounds: Seq<u64>,
    v: u64,
) -> Seq<InstanceModel> {
    let j = find_inst(is, ls);
    if j < 0 {
        is.push(
            InstanceModel {
                labels: ls,
                metric: MetricModel::Histogram(HistogramModel { bounds, obs: seq![v] }),
            },
        )
    } else {
        is.update(
            j,
            InstanceModel {
                labels: ls,
                metric: match is[j].metric {
                    MetricModel::Histogram(h) => MetricModel::Histogram(
                        HistogramModel { bounds: h.bounds, obs: h.obs.push(v) },
                    ),
                    m => m,
                },
            },
        )
    }
}

/// Swapping one family for a well-formed one with the same name keeps the
/// whole registry well-formed.
proof fn lemma_registry_update_wf(r0: Registry, r: Registry, fi: int, fam2: Family)
    requires
        r0.wf(),
        0 <= fi < r0.families@.len(),
        r.families@ == r0.families@.update(fi, fam2),
        fam2.wf(),
        fam2@.name == r0.families@[fi]@.name,
    ensures
        r.wf(),
        r@ == r0@.update(fi, fam2@),
{
    assert forall|k: int| 0 <= k < r.families@.len() implies (#[trigger] r.families@[k]).wf() by {
        if k != fi {
            assert(r.families@[k] == r0.families@[k]);
        }
    }
    assert forall|a: int, b: int|
        0 <= a < b < r.families@.len() implies r.families@[a]@.name != r.families@[b]@.name by {
        assert(r0.families@[a]@.name != r0.families@[b]@.name);
        if a != fi {
            assert(r.families@[a] == r0.families@[a]);
        }
        if b != fi {
            assert(r.families@[b] == r0.families@[b]);
        }
    }
    assert(r@ =~= r0@.update(fi, fam2@));
}

impl Registry {
    /// Applies one gauge update for these label values in the family named
    /// `name`, creating the instance at zero first if this is the label
    /// combination's first use.
    fn gauge_update(&mut self, name: &str, values: Vec<String>, op: GaugeOp) -> (r: Result<
        (),
        RegistryError,
    >)
        requires
            old(self).wf(),
        ensures
            final(self).wf(),
            ({
                let fi = find_fam(old(self)@, name@);
                let ls = str_views(values@);
                if fi < 0 {
                    r == Err::<(), RegistryError>(RegistryError::UnknownFamily) && *final(self)
                        == *old(self)
                } else if !(old(self)@[fi].kind is Gauge) {
                    r == Err::<(), RegistryError>(RegistryError::KindMismatch) && *final(self)
                        == *old(self)
                } else if old(self)@[fi].label_names.len() != ls.len() {
                    r == Err::<(), RegistryError>(RegistryError::LabelArity) && *final(self)
                        == *old(self)
                } else {
                    r.is_ok() && final(self)@ == old(self)@.update(
                        fi,
                        FamilyModel {
                            instances: insts_gauge(old(self)@[fi].instances, ls, op),
                            ..old(self)@[fi]
                        },
                    )
                }
            }),
    {
        let ghost ls = str_views(values@);
        let fi = match self.find_family(name) {
            None => {
                return Err(RegistryError::UnknownFamily);
            },
            Some(i) => i,
        };
        proof {
            assert(self@[fi as int] == self.families@[fi as int]@);
        }
        match &self.families[fi].kind {
            FamilyKind::Gauge => {},
            _ => {
                return Err(RegistryError::KindMismatch);
            },
        }
        if self.families[fi].label_names.len() != values.len() {
            proof {
                assert(str_views(values@).len() == values@.len());
            }
            return Err(RegistryError::LabelArity);
        }
        proof {
            assert(str_views(values@).len() == values@.len());
        }
        let mut fam = self.families.remove(fi);
        let ghost fam0 = fam;
        let ghost fm0 = fam@;
        let ghost is0 = fam@.instances;
        proof {
            assert(fam0.wf());
        }
        match fam.find_instance(&values) {
            Some(j) => {
                let ghost j0 = j as int;
                proof {
                    lemma_find_inst(is0, ls);
                    assert(is0[j0].labels == ls);
                    assert(is0[j0] == fam.instances@[j0]@);
                    assert(inst_fits(fm0, is0[j0]));
                }
                let cur: i64 = match &fam.instances[j].metric {
                    Metric::Gauge(g) => g.get(),
                    _ => vstd::pervasive::unreached(),
                };
                let mut g2 = Gauge::new();
                match op {
                    GaugeOp::Assign(v) => g2.set(v),
                    GaugeOp::Inc => {
                        g2.set(cur);
                        g2.inc();
                    },
                    GaugeOp::Dec => {
                        g2.set(cur);
                        g2.dec();
                    },
                }
                let inst2 = Instance { label_values: values, metric: Metric::Gauge(g2) };
                let ghost inst2g = inst2;
                fam.instances[j] = inst2;
                proof {
                    assert(inst2g@.labels == ls);
                    assert(fam.instances@ =~= fam0.instances@.update(j0, inst2g));
                    assert(inst_fits(fam@, inst2g@));
                    lemma_update_keeps_wf(fam0, fam, j0, inst2g);
                    assert(fam@.instances =~= is0.update(j0, inst2g@));
                    assert(fam@.instances =~= insts_gauge(is0, ls, op));
                }
            },
            None => {
                proof {
                    lemma_find_inst(is0, ls);
                }
                let mut g = Gauge::new();
                match op {
                    GaugeOp::Assign(v) => g.set(v),
                    GaugeOp::Inc => g.inc(),
                    GaugeOp::Dec => g.dec(),
                }
                let inst2 = Instance { label_values: values, metric: Metric::Gauge(g) };
                let ghost inst2g = inst2;
                fam.instances.push(inst2);
                proof {
                    assert(inst2g@.labels == ls);
                    assert(fam.instances@ =~= fam0.instances@.push(inst2g));
                    assert(inst_fits(fam@, inst2g@));
                    assert forall|k: int| 0 <= k < fam0.instances@.len() implies (
                    #[trigger] fam0.instances@[k])@.labels != inst2g@.labels by {
                        assert(is0[k] == fam0.instances@[k]@);
                    }
                    lemma_push_keeps_wf(fam0, fam, inst2g);
                    assert(fam@.instances =~= is0.push(inst2g@));
                    assert(fam@.instances =~= insts_gauge(is0, ls, op));
                }
            },
        }
        let ghost fam2e = fam;
        let ghost fm2 = fam@;
        self.families.insert(fi, fam);
        proof {
            assert(fm2 == FamilyModel { instances: insts_gauge(fm0.instances, ls, op), ..fm0 });
            assert(self.families@ =~= old(self).families@.update(fi as int, fam2e));
            lemma_registry_update_wf(*old(self), *self, fi as int, fam2e);
        }
        Ok(())
    }

    /// Sets the gauge with these label values in the family named `name`.
    pub fn set_gauge(&mut self, name: &str, values: Vec<String>, v: i64) -> (r: Result<
        (),
        RegistryError,
    >)
        requires
            old(self).wf(),
        ensures
            final(self).wf(),
            ({
                let fi = find_fam(old(self)@, name@);
                let ls = str_views(values@);
                if fi < 0 {
                    r == Err::<(), RegistryError>(RegistryError::UnknownFamily) && *final(self)
                        == *old(self)
                } else if !(old(self)@[fi].kind is Gauge) {
                    r == Err::<(), RegistryError>(RegistryError::KindMismatch) && *final(self)
                        == *old(self)
                } else if old(self)@[fi].label_names.len() != ls.len() {
                    r == Err::<(), RegistryError>(RegistryError::LabelArity) && *final(self)
                        == *old(self)
                } else {
                    r.is_ok() && final(self)@ == old(self)@.update(
                        fi,
                        FamilyModel {
                            instances: insts_gauge(old(self)@[fi].instances, ls, GaugeOp::Assign(v)),
                            ..old(self)@[fi]
                        },
                    )
                }
            }),
    {
        self.gauge_update(name, values, GaugeOp::Assign(v))
    }

    /// Adds one to the gauge with these label values in the family named
    /// `name`.
    pub fn inc_gauge(&mut self, name: &str, values: Vec<String>) -> (r: Result<(), RegistryError>)
        requires
            old(self).wf(),
        ensures
            final(self).wf(),
            ({
                let fi = find_fam(old(self)@, name@);
                let ls = str_views(values@);
                if fi < 0 {
                    r == Err::<(), RegistryError>(RegistryError::UnknownFamily) && *final(self)
                        == *old(self)
                } else if !(old(self)@[fi].kind is Gauge) {
                    r == Err::<(), RegistryError>(RegistryError::KindMismatch) && *final(self)
                        == *old(self)
                } else if old(self)@[fi].label_names.len() != ls.len() {
                    r == Err::<(), RegistryError>(RegistryError::LabelArity) && *final(self)
                        == *old(self)
                } else {
                    r.is_ok() && final(self)@ == old(self)@.update(
                        fi,
                        FamilyModel {
                            instances: insts_gauge(old(self)@[fi].instances, ls, GaugeOp::Inc),
                            ..old(self)@[fi]
                        },
                    )
                }
            }),
    {
        self.gauge_update(name, values, GaugeOp::Inc)
    }

    /// Subtracts one from the gauge with these label values in the family
    /// named `name`.
    pub fn dec_gauge(&mut self, name: &str, values: Vec<String>) -> (r: Result<(), RegistryError>)
        requires
            old(self).wf(),
        ensures
            final(self).wf(),
            ({
                let fi = find_fam(old(self)@, name@);
                let ls = str_views(values@);
                if fi < 0 {
                    r == Err::<(), RegistryError>(RegistryError::UnknownFamily) && *final(self)
                        == *old(self)
                } else if !(old(self)@[fi].kind is Gauge) {
                    r == Err::<(), RegistryError>(RegistryError::KindMismatch) && *final(self)
                        == *old(self)
                } else if old(self)@[fi].label_names.len() != ls.len() {
                    r == Err::<(), RegistryError>(RegistryError::LabelArity) && *final(self)
                        == *old(self)
                } else {
                    r.is_ok() && final(self)@ == old(self)@.update(
                        fi,
                        FamilyModel {
                            instances: insts_gauge(old(self)@[fi].instances, ls, GaugeOp::Dec),
                            ..old(self)@[fi]
                        },
                    )
                }
            }),
    {
        self.gauge_update(name, values, GaugeOp::Dec)
    }

    /// Records one observation for these label values in the histogram
    /// family named `name`, building a fresh histogram over the family's
    /// bucket spec if this is the label combination's first observation.
    pub fn observe_histogram(&mut self, name: &str, values: Vec<String>, v: u64) -> (r: Result<
        (),
        RegistryError,
    >)
        requires
            old(self).wf(),
        ensures
            final(self).wf(),
            ({
                let fi = find_fam(old(self)@, name@);
                let ls = str_views(values@);
                if fi < 0 {
                    r == Err::<(), RegistryError>(RegistryError::UnknownFamily) && *final(self)
                        == *old(self)
                } else if !(old(self)@[fi].kind is Histogram) {
                    r == Err::<(), RegistryError>(RegistryError::KindMismatch) && *final(self)
                        == *old(self)
                } else if old(self)@[fi].label_names.len() != ls.len() {
                    r == Err::<(), RegistryError>(RegistryError::LabelArity) && *final(self)
                        == *old(self)
                } else {
                    r.is_ok() && final(self)@ == old(self)@.update(
                        fi,
                        FamilyModel {
                            instances: insts_observe(
                                old(self)@[fi].instances,
                                ls,
                                old(self)@[fi].kind->Histogram_0,
                                v,
                            ),
                            ..old(self)@[fi]
                        },
                    )
                }
            }),
    {
        let ghost ls = str_views(values@);
        let fi = match self.find_family(name) {
            None => {
                return Err(RegistryError::UnknownFamily);
            },
            Some(i) => i,
        };
        proof {
            assert(self@[fi as int] == self.families@[fi as int]@);
        }
        match &self.families[fi].kind {
            FamilyKind::Histogram(_) => {},
            _ => {
                return Err(RegistryError::KindMismatch);
            },
        }
        if self.families[fi].label_names.len() != values.len() {
            proof {
                assert(str_views(values@).len() == values@.len());
            }
            return Err(RegistryError::LabelArity);
        }
        proof {
            assert(str_views(values@).len() == values@.len());
        }
        let mut fam = self.families.remove(fi);
        let ghost fam0 = fam;
        let ghost fm0 = fam@;
        let ghost is0 = fam@.instances;
        let ghost bounds = fm0.kind->Histogram_0;
        proof {
            assert(fam0.wf());
        }
        match fam.find_instance(&values) {
            Some(j) => {
                let ghost j0 = j as int;
                proof {
                    lemma_find_inst(is0, ls);
                    assert(is0[j0].labels == ls);
                    assert(is0[j0] == fam.instances@[j0]@);
                    assert(inst_fits(fm0, is0[j0]));
                    assert(inst_metric_wf(fam.instances@[j0]));
                }
                let inst = fam.instances.remove(j);
                let Instance { label_values: lv, metric: m } = inst;
                let mut h = match m {
                    Metric::Histogram(h) => h,
                    _ => vstd::pervasive::unreached(),
                };
                h.observe(v);
                let inst2 = Instance { label_values: lv, metric: Metric::Histogram(h) };
                let ghost inst2g = inst2;
                fam.instances.insert(j, inst2);
                proof {
                    assert(inst2g@.labels == ls);
                    assert(fam.instances@ =~= fam0.instances@.update(j0, inst2g));
                    assert(inst_fits(fam@, inst2g@));
                    lemma_update_keeps_wf(fam0, fam, j0, inst2g);
                    assert(fam@.instances =~= is0.update(j0, inst2g@));
                    assert(fam@.instances =~= insts_observe(is0, ls, bounds, v));
                }
            },
            None => {
                proof {
                    lemma_find_inst(is0, ls);
                }
                let mut h = match &fam.kind {
                    FamilyKind::Histogram(b) => b.new_metric(),
                    _ => vstd::pervasive::unreached(),
                };
                h.observe(v);
                proof {
                    assert(h@.obs =~= seq![v]);
                }
                let inst2 = Instance { label_values: values, metric: Metric::Histogram(h) };
                let ghost inst2g = inst2;
                fam.instances.push(inst2);
                proof {
                    assert(inst2g@.labels == ls);
                    assert(fam.instances@ =~= fam0.instances@.push(inst2g));
                    assert(inst_fits(fam@, inst2g@));
                    assert forall|k: int| 0 <= k < fam0.instances@.len() implies (
                    #[trigger] fam0.instances@[k])@.labels != inst2g@.labels by {
                        assert(is0[k] == fam0.instances@[k]@);
                    }
                    lemma_push_keeps_wf(fam0, fam, inst2g);
                    assert(fam@.instances =~= is0.push(inst2g@));
                    assert(fam@.instances =~= insts_observe(is0, ls, bounds, v));
                }
            },
        }
        let ghost fam2e = fam;
        let ghost fm2 = fam@;
        self.families.insert(fi, fam);
        proof {
            assert(fm2 == FamilyModel { instances: insts_observe(fm0.instances, ls, bounds, v), ..fm0 });
            assert(self.families@ =~= old(self).families@.update(fi as int, fam2e));
            lemma_registry_update_wf(*old(self), *self, fi as int, fam2e);
        }
        Ok(())
    }
}

/// Replacing one instance by another with the same labels, a fitting metric
/// and coherent counts keeps a family well-formed.
proof fn lemma_update_keeps_wf(fam0: Family, fam: Family, j: int, inst2: Instance)
    requires
        fam0.wf(),
        0 <= j < fam0.instances@.len(),
        fam.instances@ == fam0.instances@.update(j, inst2),
        fam.name == fam0.name,
        fam.help == fam0.help,
        fam.label_names == fam0.label_names,
        fam.kind == fam0.kind,
        inst2@.labels == fam0.instances@[j]@.labels,
        inst_fits(fam@, inst2@),
        inst_metric_wf(inst2),
    ensures
        fam.wf(),
{
    assert forall|k: int| 0 <= k < fam.instances@.len() implies inst_fits(
        fam@,
        (#[trigger] fam.instances@[k])@,
    ) && inst_metric_wf(fam.instances@[k]) by {
        if k != j {
            assert(fam.instances@[k] == fam0.instances@[k]);
            assert(inst_fits(fam0@, fam0.instances@[k]@));
            assert(inst_metric_wf(fam0.instances@[k]));
        }
    }
    assert forall|a: int, b: int|
        0 <= a < b < fam.instances@.len() implies fam.instances@[a]@.labels
        != fam.instances@[b]@.labels by {
        assert(fam0.instances@[a]@.labels != fam0.instances@[b]@.labels);
        if a != j {
            assert(fam.instances@[a] == fam0.instances@[a]);
        }
        if b != j {
            assert(fam.instances@[b] == fam0.instances@[b]);
        }
    }
}

/// Appending an instance with fresh labels, a fitting metric and coherent
/// counts keeps a family well-formed.
proof fn lemma_push_keeps_wf(fam0: Family, fam: Family, inst2: Instance)
    requires
        fam0.wf(),
        fam.instances@ == fam0.instances@.push(inst2),
        fam.name == fam0.name,
        fam.help == fam0.help,
        fam.label_names == fam0.label_names,
        fam.kind == fam0.kind,
        forall|k: int|
            0 <= k < fam0.instances@.len() ==> (#[trigger] fam0.instances@[k])@.labels
                != inst2@.labels,
        inst_fits(fam@, inst2@),
        inst_metric_wf(inst2),
    ensures
        fam.wf(),
{
    let n0 = fam0.instances@.len() as int;
    assert forall|k: int| 0 <= k < fam.instances@.len() implies inst_fits(
        fam@,
        (#[trigger] fam.instances@[k])@,
    ) && inst_metric_wf(fam.instances@[k]) by {
        if k < n0 {
            assert(fam.instances@[k] == fam0.instances@[k]);
            assert(inst_fits(fam0@, fam0.instances@[k]@));
            assert(inst_metric_wf(fam0.instances@[k]));
        } else {
            assert(fam.instances@[k] == inst2);
        }
    }
    assert forall|a: int, b: int|
        0 <= a < b < fam.instances@.len() implies fam.instances@[a]@.labels
        != fam.instances@[b]@.labels by {
        if b < n0 {
            assert(fam.instances@[a] == fam0.instances@[a]);
            assert(fam.instances@[b] == fam0.instances@[b]);
            assert(fam0.instances@[a]@.labels != fam0.instances@[b]@.labels);
        } else {
            assert(fam.instances@[b] == inst2);
            assert(fam.instances@[a] == fam0.instances@[a]);
        }
    }
}


/// The counter value reported for one label combination, if that
/// combination has been observed.
pub open spec fn counter_value(is: Seq<InstanceModel>, ls: Seq<Seq<char>>) -> Option<u64> {
    let j = find_inst(is, ls);
    if j < 0 {
        None
    } else {
        match is[j].metric {
            MetricModel::Counter(c) => Some(c),
            _ => None,
        }
    }
}

/// Label-combination isolation: driving a counter under one label tuple
/// never changes the value reported under any other label tuple of the same
/// family.
pub proof fn lemma_label_isolation(
    is: Seq<InstanceModel>,
    ls1: Seq<Seq<char>>,
    ls2: Seq<Seq<char>>,
    n: u64,
)
    requires
        ls1 != ls2,
    ensures
        counter_value(insts_inc_counter(is, ls1, n), ls2) == counter_value(is, ls2),
{
    lemma_find_inst(is, ls1);
    lemma_find_inst(is, ls2);
    let j1 = find_inst(is, ls1);
    let j2 = find_inst(is, ls2);
    let is2 = insts_inc_counter(is, ls1, n);
    if j1 < 0 {
        assert(is2 =~= is.push(
            InstanceModel { labels: ls1, metric: MetricModel::Counter(w64(n as int)) },
        ));
        if j2 >= 0 {
            assert(is2[j2].labels == ls2);
            assert forall|k: int| 0 <= k < j2 implies is2[k].labels != ls2 by {
                assert(is2[k] == is[k]);
            }
            lemma_find_inst_is_first(is2, ls2, j2);
            assert(is2[j2] == is[j2]);
        } else {
            lemma_find_inst(is2, ls2);
            if find_inst(is2, ls2) >= 0 {
                let j = find_inst(is2, ls2);
                if j < is.len() {
                    assert(is2[j] == is[j]);
                    assert(false);
                } else {
                    assert(is2[j].labels == ls1);
                    assert(false);
                }
            }
        }
    } else {
        let e1 = InstanceModel { labels: ls1, metric: counter_after(is[j1].metric, n) };
        assert(is2 =~= is.update(j1, e1));
        if j2 >= 0 {
            assert(j2 != j1);
            assert(is2[j2] == is[j2]);
            assert forall|k: int| 0 <= k < j2 implies is2[k].labels != ls2 by {
                if k == j1 {
                    assert(is2[k].labels == ls1);
                } else {
                    assert(is2[k] == is[k]);
                }
            }
            lemma_find_inst_is_first(is2, ls2, j2);
        } else {
            lemma_find_inst(is2, ls2);
            if find_inst(is2, ls2) >= 0 {
                let j = find_inst(is2, ls2);
                if j == j1 {
                    assert(is2[j].labels == ls1);
                    assert(false);
                } else {
                    assert(is2[j] == is[j]);
                    assert(false);
                }
            }
        }
    }
}

/// One `name="value"` label pair as exposition bytes.
pub open spec fn pair_doc(nm: Seq<char>, vl: Seq<char>) -> Seq<u8> {
    utf8(nm) + utf8("=\""@) + escape_label_bytes(utf8(vl)) + utf8("\""@)
}

/// The first `n` label pairs, comma-separated.
pub open spec fn pairs_doc(ns: Seq<Seq<char>>, vs: Seq<Seq<char>>, n: int) -> Seq<u8>
    decreases n,
{
    if n <= 0 {
        Seq::empty()
    } else if n == 1 {
        pair_doc(ns[0], vs[0])
    } else {
        pairs_doc(ns, vs, n - 1) + utf8(","@) + pair_doc(ns[n - 1], vs[n - 1])
    }
}

/// The brace-enclosed label block of a sample, empty when there are no
/// labels.
pub open spec fn label_block(ns: Seq<Seq<char>>, vs: Seq<Seq<char>>) -> Seq<u8> {
    if ns.len() == 0 {
        Seq::empty()
    } else {
        utf8("{"@) + pairs_doc(ns, vs, ns.len() as int) + utf8("}"@)
    }
}

/// One sample line: name, label block, space, value, newline.
pub open spec fn sample_line(
    name_bytes: Seq<u8>,
    ns: Seq<Seq<char>>,
    vs: Seq<Seq<char>>,
    value_bytes: Seq<u8>,
) -> Seq<u8> {
    name_bytes + label_block(ns, vs) + utf8(" "@) + value_bytes + utf8("\n"@)
}

/// One cumulative bucket line of a histogram; the `le` label always stands
/// last, after the family's own labels.
pub open spec fn bucket_line(
    name: Seq<char>,
    ns: Seq<Seq<char>>,
    vs: Seq<Seq<char>>,
    bound_bytes: Seq<u8>,
    count_bytes: Seq<u8>,
) -> Seq<u8> {
    utf8(name) + utf8("_bucket{"@) + pairs_doc(ns, vs, ns.len() as int) + (if ns.len() > 0 {
        utf8(","@)
    } else {
        Seq::empty()
    }) + utf8("le=\""@) + bound_bytes + utf8("\"} "@) + count_bytes + utf8("\n"@)
}

/// The first `n` bounded bucket lines of a histogram instance.
pub open spec fn bucket_lines(
    name: Seq<char>,
    ns: Seq<Seq<char>>,
    vs: Seq<Seq<char>>,
    h: HistogramModel,
    n: int,
) -> Seq<u8>
    decreases n,
{
    if n <= 0 {
        Seq::empty()
    } else {
        bucket_lines(name, ns, vs, h, n - 1) + bucket_line(
            name,
            ns,
            vs,
            dec_bytes(h.bounds[n - 1] as int),
            dec_bytes(w64(count_le(h.obs, h.bounds[n - 1])) as int),
        )
    }
}

/// A whole histogram instance: every bounded bucket, the unbounded bucket,
/// then the sum and count series.
pub open spec fn hist_doc(
    name: Seq<char>,
    ns: Seq<Seq<char>>,
    vs: Seq<Seq<char>>,
    h: HistogramModel,
) -> Seq<u8> {
    bucket_lines(name, ns, vs, h, h.bounds.len() as int) + bucket_line(
        name,
        ns,
        vs,
        utf8("+Inf"@),
        dec_bytes(w64(h.obs.len() as int) as int),
    ) + sample_line(
        utf8(name) + utf8("_sum"@),
        ns,
        vs,
        dec_bytes(w64(sum_obs(h.obs)) as int),
    ) + sample_line(
        utf8(name) + utf8("_count"@),
        ns,
        vs,
        dec_bytes(w64(h.obs.len() as int) as int),
    )
}

/// One instance of a family as exposition bytes.
pub open spec fn inst_doc(name: Seq<char>, ns: Seq<Seq<char>>, im: InstanceModel) -> Seq<u8> {
    match im.metric {
        MetricModel::Counter(c) => sample_line(utf8(name), ns, im.labels, dec_bytes(c as int)),
        MetricModel::Gauge(g) => sample_line(utf8(name), ns, im.labels, dec_bytes_signed(g as int)),
        MetricModel::Histogram(h) => hist_doc(name, ns, im.labels, h),
    }
}

/// The first `n` instances of a family.
pub open spec fn insts_doc(name: Seq<char>, ns: Seq<Seq<char>>, is: Seq<InstanceModel>, n: int) -> Seq<
    u8,
>
    decreases n,
{
    if n <= 0 {
        Seq::empty()
    } else {
        insts_doc(name, ns, is, n - 1) + inst_doc(name, ns, is[n - 1])
    }
}

/// The exposition name of a family's metric type.
pub open spec fn kind_token(k: KindModel) -> Seq<char> {
    match k {
        KindModel::Counter => "counter"@,
        KindModel::Gauge => "gauge"@,
        KindModel::Histogram(_) => "histogram"@,
    }
}

/// A whole family: its help and type header lines, then every instance in
/// the order the label combinations were first observed.
pub open spec fn fam_doc(fm: FamilyModel) -> Seq<u8> {
    utf8("# HELP "@) + utf8(fm.name) + utf8(" "@) + escape_help_bytes(utf8(fm.help)) + utf8("\n"@)
        + utf8("# TYPE "@) + utf8(fm.name) + utf8(" "@) + utf8(kind_token(fm.kind)) + utf8("\n"@)
        + insts_doc(fm.name, fm.label_names, fm.instances, fm.instances.len() as int)
}

/// The first `n` families of a registry.
pub open spec fn fams_doc(fs: Seq<FamilyModel>, n: int) -> Seq<u8>
    decreases n,
{
    if n <= 0 {
        Seq::empty()
    } else {
        fams_doc(fs, n - 1) + fam_doc(fs[n - 1])
    }
}

/// A whole registry: every family, in registration order.
pub open spec fn registry_doc(fs: Seq<FamilyModel>) -> Seq<u8> {
    fams_doc(fs, fs.len() as int)
}

/// Appends the comma-separated label pairs to `out`.
fn encode_pairs(out: &mut Vec<u8>, names: &Vec<String>, values: &Vec<String>)
    requires
        names@.len() == values@.len(),
    ensures
        final(out)@ == old(out)@ + pairs_doc(
            str_views(names@),
            str_views(values@),
            names@.len() as int,
        ),
{
    let ghost ns = str_views(names@);
    let ghost vs = str_views(values@);
    let n = names.len();
    let mut i: usize = 0;
    while i < n
        invariant
            n == names@.len(),
            n == values@.len(),
            ns == str_views(names@),
            vs == str_views(values@),
            0 <= i <= n,
            out@ == old(out)@ + pairs_doc(ns, vs, i as int),
        decreases n - i,
    {
        if i > 0 {
            append_str(out, ",");
        }
        append_str(out, names[i].as_str());
        append_str(out, "=\"");
        append_escaped_label(out, values[i].as_str());
        append_str(out, "\"");
        proof {
            assert(ns[i as int] == names@[i as int]@);
            assert(vs[i as int] == values@[i as int]@);
            assert(out@ =~= old(out)@ + pairs_doc(ns, vs, i + 1));
        }
        i = i + 1;
    }
}

/// Appends the label block (if any labels exist) to `out`.
fn encode_label_block(out: &mut Vec<u8>, names: &Vec<String>, values: &Vec<String>)
    requires
        names@.len() == values@.len(),
    ensures
        final(out)@ == old(out)@ + label_block(str_views(names@), str_views(values@)),
{
    if names.len() > 0 {
        append_str(out, "{");
        encode_pairs(out, names, values);
        append_str(out, "}");
        proof {
            assert(str_views(names@).len() == names@.len());
            assert(out@ =~= old(out)@ + label_block(str_views(names@), str_views(values@)));
        }
    } else {
        proof {
            assert(str_views(names@).len() == names@.len());
        }
    }
}

/// Appends one histogram instance's exposition text to `out`.
#[verifier::rlimit(100)]
#[verifier::spinoff_prover]
fn encode_histogram(
    out: &mut Vec<u8>,
    name: &String,
    label_names: &Vec<String>,
    label_values: &Vec<String>,
    h: &Histogram,
)
    requires
        h.wf(),
        label_names@.len() == label_values@.len(),
    ensures
        final(out)@ == old(out)@ + hist_doc(
            name@,
            str_views(label_names@),
            str_views(label_values@),
            h@,
        ),
{
    let ghost nm = name@;
    let ghost ns = str_views(label_names@);
    let ghost vs = str_views(label_values@);
    let ghost hm = h@;
    proof {
        assert(ns.len() == label_names@.len());
    }
    let nb = h.num_buckets();
    let mut k: usize = 0;
    while k < nb
        invariant
            h.wf(),
            hm == h@,
            nm == name@,
            ns == str_views(label_names@),
            vs == str_views(label_values@),
            ns.len() == label_names@.len(),
            label_names@.len() == label_values@.len(),
            nb == hm.bounds.len(),
            0 <= k <= nb,
            out@ == old(out)@ + bucket_lines(nm, ns, vs, hm, k as int),
        decreases nb - k,
    {
        append_str(out, name.as_str());
        append_str(out, "_bucket{");
        encode_pairs(out, label_names, label_values);
        if label_names.len() > 0 {
            append_str(out, ",");
        }
        append_str(out, "le=\"");
        append_u64(out, h.bucket_bound(k));
        append_str(out, "\"} ");
        append_u64(out, h.bucket_count(k));
        append_str(out, "\n");
        proof {
            assert(out@ =~= old(out)@ + bucket_lines(nm, ns, vs, hm, k + 1));
        }
        k = k + 1;
    }
    let ghost part1 = out@;
    append_str(out, name.as_str());
    append_str(out, "_bucket{");
    encode_pairs(out, label_names, label_values);
    if label_names.len() > 0 {
        append_str(out, ",");
    }
    append_str(out, "le=\"");
    append_str(out, "+Inf");
    append_str(out, "\"} ");
    append_u64(out, h.total_count());
    append_str(out, "\n");
    proof {
        assert(out@ =~= part1 + bucket_line(
            nm,
            ns,
            vs,
            utf8("+Inf"@),
            dec_bytes(w64(hm.obs.len() as int) as int),
        ));
    }
    let ghost part2 = out@;
    append_str(out, name.as_str());
    append_str(out, "_sum");
    encode_label_block(out, label_names, label_values);
    append_str(out, " ");
    append_u64(out, h.sum());
    append_str(out, "\n");
    proof {
        assert(out@ =~= part2 + sample_line(
            utf8(nm) + utf8("_sum"@),
            ns,
            vs,
            dec_bytes(w64(sum_obs(hm.obs)) as int),
        ));
    }
    let ghost part3 = out@;
    append_str(out, name.as_str());
    append_str(out, "_count");
    encode_label_block(out, label_names, label_values);
    append_str(out, " ");
    append_u64(out, h.total_count());
    append_str(out, "\n");
    proof {
        assert(out@ =~= part3 + sample_line(
            utf8(nm) + utf8("_count"@),
            ns,
            vs,
            dec_bytes(w64(hm.obs.len() as int) as int),
        ));
        assert(out@ =~= old(out)@ + hist_doc(nm, ns, vs, hm));
    }
}

impl Family {
    /// Appends the exposition text of instance `idx` to `out`.
    #[verifier::rlimit(100)]
    #[verifier::spinoff_prover]
    fn encode_instance(&self, idx: usize, out: &mut Vec<u8>)
        requires
            self.wf(),
            idx < self.instances@.len(),
        ensures
            final(out)@ == old(out)@ + inst_doc(
                self@.name,
                self@.label_names,
                self@.instances[idx as int],
            ),
    {
        let ghost fm = self@;
        let ghost im = fm.instances[idx as int];
        proof {
            assert(im == self.instances@[idx as int]@);
            assert(inst_fits(fm, im));
            assert(inst_metric_wf(self.instances@[idx as int]));
        }
        let ghost start = out@;
        let inst = &self.instances[idx];
        match &inst.metric {
            Metric::Counter(c) => {
                append_str(out, self.name.as_str());
                encode_label_block(out, &self.label_names, &inst.label_values);
                append_str(out, " ");
                append_u64(out, c.get());
                append_str(out, "\n");
                proof {
                    assert(out@ =~= start + inst_doc(fm.name, fm.label_names, im));
                }
            },
            Metric::Gauge(g) => {
                append_str(out, self.name.as_str());
                encode_label_block(out, &self.label_names, &inst.label_values);
                append_str(out, " ");
                append_i64(out, g.get());
                append_str(out, "\n");
                proof {
                    assert(out@ =~= start + inst_doc(fm.name, fm.label_names, im));
                }
            },
            Metric::Histogram(h) => {
                encode_histogram(out, &self.name, &self.label_names, &inst.label_values, h);
                proof {
                    assert(out@ =~= start + inst_doc(fm.name, fm.label_names, im));
                }
            },
        }
    }

    /// Appends this family's exposition text to `out`.
    #[verifier::rlimit(100)]
    #[verifier::spinoff_prover]
    fn encode(&self, out: &mut Vec<u8>)
        requires
            self.wf(),
        ensures
            final(out)@ == old(out)@ + fam_doc(self@),
    {
        let ghost fm = self@;
        append_str(out, "# HELP ");
        append_str(out, self.name.as_str());
        append_str(out, " ");
        append_escaped_help(out, self.help.as_str());
        append_str(out, "\n");
        append_str(out, "# TYPE ");
        append_str(out, self.name.as_str());
        append_str(out, " ");
        match &self.kind {
            FamilyKind::Counter => append_str(out, "counter"),
            FamilyKind::Gauge => append_str(out, "gauge"),
            FamilyKind::Histogram(_) => append_str(out, "histogram"),
        }
        append_str(out, "\n");
        let ghost header = out@;
        proof {
            assert(header =~= old(out)@ + (utf8("# HELP "@) + utf8(fm.name) + utf8(" "@)
                + escape_help_bytes(utf8(fm.help)) + utf8("\n"@) + utf8("# TYPE "@) + utf8(fm.name)
                + utf8(" "@) + utf8(kind_token(fm.kind)) + utf8("\n"@)));
        }
        let n = self.instances.len();
        let mut i: usize = 0;
        while i < n
            invariant
                self.wf(),
                fm == self@,
                n == self.instances@.len(),
                0 <= i <= n,
                header == old(out)@ + (utf8("# HELP "@) + utf8(fm.name) + utf8(" "@)
                    + escape_help_bytes(utf8(fm.help)) + utf8("\n"@) + utf8("# TYPE "@) + utf8(
                    fm.name,
                ) + utf8(" "@) + utf8(kind_token(fm.kind)) + utf8("\n"@)),
                out@ == header + insts_doc(fm.name, fm.label_names, fm.instances, i as int),
            decreases n - i,
        {
            self.encode_instance(i, out);
            proof {
                assert(out@ =~= header + insts_doc(fm.name, fm.label_names, fm.instances, i + 1));
            }
            i = i + 1;
        }
        proof {
            assert(out@ =~= old(out)@ + fam_doc(fm));
        }
    }
}

impl Registry {
    /// Appends this registry's whole exposition text to `out`: every family
    /// in registration order, each with its headers and instances.
    pub fn encode(&self, out: &mut Vec<u8>)
        requires
            self.wf(),
        ensures
            final(out)@ == old(out)@ + registry_doc(self@),
    {
        let n = self.families.len();
        let mut i: usize = 0;
        while i < n
            invariant
                self.wf(),
                n == self.families@.len(),
                0 <= i <= n,
                out@ == old(out)@ + fams_doc(self@, i as int),
            decreases n - i,
        {
            proof {
                assert(self@[i as int] == self.families@[i as int]@);
            }
            self.families[i].encode(out);
            proof {
                assert(out@ =~= old(out)@ + fams_doc(self@, i + 1));
            }
            i = i + 1;
        }
        proof {
            assert(self@.len() == self.families@.len());
        }
    }
}

} // verus!
