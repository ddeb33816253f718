//! The codec registry's bookkeeping: per code, the registered codecs in
//! selection order; implementation priorities, preferences and policies;
//! and the choice of a codec for a code.
use vstd::prelude::*;

use crate::format::FourCc;
use crate::ids::{
    ascii_lowercase, chars_of, is_hardware_name, lower_chars, normalize_all, normalized, str_eq,
    CodecDescriptor, CodecImplementationId, Preference,
};
use crate::raw::CodecKind;

verus! {

/// A registered codec: its descriptor, and the slot its owner keeps the
/// codec object in.
#[derive(Debug, Clone, Copy)]
pub struct CodecEntry {
    pub descriptor: CodecDescriptor,
    pub slot: usize,
}

/// Normal form of an entry's implementation name.
pub open spec fn entry_impl(e: CodecEntry) -> Seq<char> {
    normalized(e.descriptor.impl_name@)
}

/// The entry is a hardware codec.
pub open spec fn entry_hw(e: CodecEntry) -> bool {
    is_hardware_name(entry_impl(e)) || is_hardware_name(e.descriptor.name@)
}

/// The key codecs are ordered by: implementation priority (lowest first,
/// none counting as the largest), then hardware first where hardware is
/// preferred, then implementation name.
pub struct SelectKey {
    pub prio: int,
    pub bias: int,
    pub name: Seq<char>,
}

/// `a` comes before `b` in code-point order.
pub open spec fn chars_lt(a: Seq<char>, b: Seq<char>) -> bool
    decreases a.len(),
{
    if a.len() == 0 {
        b.len() > 0
    } else if b.len() == 0 {
        false
    } else if a[0] != b[0] {
        a[0] < b[0]
    } else {
        chars_lt(a.drop_first(), b.drop_first())
    }
}

/// `a` orders strictly before `b`.
pub open spec fn key_lt(a: SelectKey, b: SelectKey) -> bool {
    ||| a.prio < b.prio
    ||| a.prio == b.prio && a.bias < b.bias
    ||| a.prio == b.prio && a.bias == b.bias && chars_lt(a.name, b.name)
}

/// `s` (ordered by `key`) with `x` placed after every element that does
/// not order after it.
pub open spec fn insert_sorted(s: Seq<CodecEntry>, x: CodecEntry, key: spec_fn(CodecEntry) -> SelectKey) -> Seq<CodecEntry>
    decreases s.len(),
{
    if s.len() == 0 {
        seq![x]
    } else if key_lt(key(x), key(s.last())) {
        insert_sorted(s.drop_last(), x, key).push(s.last())
    } else {
        s.push(x)
    }
}

/// The stable sort of `s` by `key`.
pub open spec fn stable_sorted(s: Seq<CodecEntry>, key: spec_fn(CodecEntry) -> SelectKey) -> Seq<CodecEntry>
    decreases s.len(),
{
    if s.len() == 0 {
        s
    } else {
        insert_sorted(stable_sorted(s.drop_last(), key), s.last(), key)
    }
}

/// Executable form of a selection key.
pub struct ExecKey {
    pub prio: i32,
    pub bias: u8,
    pub name: Vec<char>,
}

/// The key an executable key stands for.
pub open spec fn key_view(k: ExecKey) -> SelectKey {
    SelectKey { prio: k.prio as int, bias: k.bias as int, name: k.name@ }
}

fn chars_less(a: &Vec<char>, b: &Vec<char>) -> (r: bool)
    ensures
        r == chars_lt(a@, b@),
{
    let mut i: usize = 0;
    assert(a@.skip(0) =~= a@ && b@.skip(0) =~= b@);
    loop
        invariant
            i <= a@.len(),
            i <= b@.len(),
            chars_lt(a@, b@) == chars_lt(a@.skip(i as int), b@.skip(i as int)),
        decreases a@.len() - i,
    {
        if i == a.len() {
            return i < b.len();
        }
        if i == b.len() {
            return false;
        }
        if a[i] != b[i] {
            assert(a@.skip(i as int)[0] == a@[i as int] && b@.skip(i as int)[0] == b@[i as int]);
            return a[i] < b[i];
        }
        proof {
            assert(a@.skip(i as int).drop_first() =~= a@.skip(i + 1));
            assert(b@.skip(i as int).drop_first() =~= b@.skip(i + 1));
        }
        i = i + 1;
    }
}

fn key_less(a: &ExecKey, b: &ExecKey) -> (r: bool)
    ensures
        r == key_lt(key_view(*a), key_view(*b)),
{
    if a.prio != b.prio {
        return a.prio < b.prio;
    }
    if a.bias != b.bias {
        return a.bias < b.bias;
    }
    chars_less(&a.name, &b.name)
}

proof fn lemma_insert_at(s: Seq<CodecEntry>, x: CodecEntry, key: spec_fn(CodecEntry) -> SelectKey, j: int)
    requires
        0 <= j <= s.len(),
        forall|m: int| j <= m < s.len() ==> key_lt(key(x), #[trigger] key(s[m])),
        j > 0 ==> !key_lt(key(x), key(s[j - 1])),
    ensures
        insert_sorted(s, x, key) == s.insert(j, x),
    decreases s.len(),
{
    if s.len() == 0 {
        assert(s.insert(j, x) =~= seq![x]);
    } else if j == s.len() {
        assert(s.insert(j, x) =~= s.push(x));
    } else {
        assert(key_lt(key(x), key(s[s.len() - 1])));
        let d = s.drop_last();
        assert forall|m: int| j <= m < d.len() implies key_lt(key(x), #[trigger] key(d[m])) by {
            assert(d[m] == s[m]);
        }
        if j > 0 {
            assert(d[j - 1] == s[j - 1]);
        }
        lemma_insert_at(d, x, key, j);
        assert(d.insert(j, x).push(s.last()) =~= s.insert(j, x));
    }
}

/// Priority of implementation `name` for code `f` in a list of
/// assignments, the last assignment winning.
pub open spec fn prio_of(list: Seq<(FourCc, CodecImplementationId, i32)>, f: FourCc, name: Seq<char>) -> Option<i32>
    decreases list.len(),
{
    if list.len() == 0 {
        None
    } else if list.last().0 == f && list.last().1@ == name {
        Some(list.last().2)
    } else {
        prio_of(list.drop_last(), f, name)
    }
}

/// Priority of implementation `name` in a policy's list of assignments,
/// the last assignment winning.
pub open spec fn policy_prio(list: Seq<(CodecImplementationId, i32)>, name: Seq<char>) -> Option<i32>
    decreases list.len(),
{
    if list.len() == 0 {
        None
    } else if list.last().0@ == name {
        Some(list.last().1)
    } else {
        policy_prio(list.drop_last(), name)
    }
}

/// The selection key of an entry of code `f`.
pub open spec fn select_key(
    prios: Seq<(FourCc, CodecImplementationId, i32)>,
    prefer_hw: bool,
    f: FourCc,
    e: CodecEntry,
) -> SelectKey {
    SelectKey {
        prio: match prio_of(prios, f, entry_impl(e)) {
            Some(p) => p as int,
            None => i32::MAX as int,
        },
        bias: if prefer_hw && entry_hw(e) {
            0
        } else {
            1
        },
        name: entry_impl(e),
    }
}

/// The key function of code `f`'s codecs.
pub open spec fn key_fn(prios: Seq<(FourCc, CodecImplementationId, i32)>, prefer_hw: bool, f: FourCc) -> spec_fn(CodecEntry) -> SelectKey {
    |e: CodecEntry| select_key(prios, prefer_hw, f, e)
}

fn priority_in(prios: &Vec<(FourCc, CodecImplementationId, i32)>, f: FourCc, name: &CodecImplementationId) -> (r: Option<i32>)
    ensures
        r == prio_of(prios@, f, name@),
{
    let mut i = prios.len();
    assert(prios@.take(i as int) =~= prios@);
    while i > 0
        invariant
            i <= prios@.len(),
            prio_of(prios@, f, name@) == prio_of(prios@.take(i as int), f, name@),
        decreases i,
    {
        let entry = &prios[i - 1];
        proof {
            assert(prios@.take(i as int).last() == prios@[i - 1]);
            assert(prios@.take(i as int).drop_last() =~= prios@.take(i - 1));
        }
        if entry.0 == f && entry.1.same_as(name) {
            return Some(entry.2);
        }
        i = i - 1;
    }
    None
}

fn entry_key(prios: &Vec<(FourCc, CodecImplementationId, i32)>, prefer_hw: bool, f: FourCc, e: &CodecEntry) -> (k: ExecKey)
    ensures
        key_view(k) == select_key(prios@, prefer_hw, f, *e),
{
    let id = e.descriptor.implementation_id();
    let prio = match priority_in(prios, f, &id) {
        Some(p) => p,
        None => i32::MAX,
    };
    let hw = e.descriptor.is_hardware_accelerated();
    let bias: u8 = if prefer_hw && hw {
        0
    } else {
        1
    };
    ExecKey { prio, bias, name: chars_of(id.as_str()) }
}

/// `list` stably sorted by the selection key of code `f`.
pub fn sort_backends(
    prios: &Vec<(FourCc, CodecImplementationId, i32)>,
    prefer_hw: bool,
    f: FourCc,
    list: &Vec<CodecEntry>,
) -> (r: Vec<CodecEntry>)
    ensures
        r@ == stable_sorted(list@, key_fn(prios@, prefer_hw, f)),
{
    let ghost key = key_fn(prios@, prefer_hw, f);
    let mut out: Vec<CodecEntry> = Vec::new();
    let mut keys: Vec<ExecKey> = Vec::new();
    let mut i: usize = 0;
    while i < list.len()
        invariant
            i <= list@.len(),
            key == key_fn(prios@, prefer_hw, f),
            out@ == stable_sorted(list@.take(i as int), key),
            keys@.len() == out@.len(),
            forall|m: int| 0 <= m < out@.len() ==> #[trigger] key_view(keys@[m]) == key(out@[m]),
        decreases list@.len() - i,
    {
        let e = list[i];
        let k = entry_key(prios, prefer_hw, f, &e);
        assert(key_view(k) == key(e));
        let mut j = out.len();
        loop
            invariant
                j <= out@.len(),
                keys@.len() == out@.len(),
                forall|m: int| 0 <= m < out@.len() ==> #[trigger] key_view(keys@[m]) == key(out@[m]),
                key_view(k) == key(e),
                forall|m: int| j <= m < out@.len() ==> key_lt(key(e), #[trigger] key(out@[m])),
            ensures
                j <= out@.len(),
                forall|m: int| j <= m < out@.len() ==> key_lt(key(e), #[trigger] key(out@[m])),
                j > 0 ==> !key_lt(key(e), key(out@[j - 1])),
            decreases j,
        {
            if j == 0 {
                break;
            }
            if !key_less(&k, &keys[j - 1]) {
                break;
            }
            j = j - 1;
        }
        proof {
            lemma_insert_at(out@, e, key, j as int);
            assert(list@.take(i + 1).drop_last() =~= list@.take(i as int));
            assert(list@.take(i + 1).last() == e);
        }
        let ghost old_out = out@;
        let ghost old_keys = keys@;
        out.insert(j, e);
        keys.insert(j, k);
        proof {
            assert forall|m: int| 0 <= m < out@.len() implies #[trigger] key_view(keys@[m]) == key(out@[m]) by {
                if m < j {
                    assert(keys@[m] == old_keys[m] && out@[m] == old_out[m]);
                } else if m > j {
                    assert(keys@[m] == old_keys[m - 1] && out@[m] == old_out[m - 1]);
                }
            }
        }
        i = i + 1;
    }
    assert(list@.take(list@.len() as int) =~= list@);
    out
}

/// Which implementations a code's codecs are chosen by: whether hardware
/// is preferred, implementations to try first, and priorities.
#[derive(Debug, Clone)]
pub struct CodecPolicy {
    pub fourcc: FourCc,
    pub prefer_hardware: bool,
    pub ordered_impls: Vec<CodecImplementationId>,
    pub priorities: Vec<(CodecImplementationId, i32)>,
}

/// A policy under construction.
#[derive(Debug, Clone)]
pub struct CodecPolicyBuilder {
    fourcc: FourCc,
    prefer_hardware: bool,
    ordered_impls: Vec<CodecImplementationId>,
    priorities: Vec<(CodecImplementationId, i32)>,
}

impl CodecPolicy {
    /// A builder for code `fourcc`'s policy: hardware preferred, no
    /// implementations ordered, no priorities.
    pub fn builder(fourcc: FourCc) -> (r: CodecPolicyBuilder)
        ensures
            r.spec_fourcc() == fourcc,
            r.spec_prefer_hardware(),
            r.spec_ordered()@.len() == 0,
            r.spec_priorities()@.len() == 0,
    {
        CodecPolicyBuilder { fourcc, prefer_hardware: true, ordered_impls: Vec::new(), priorities: Vec::new() }
    }
}

impl CodecPolicyBuilder {
    /// The code.
    pub closed spec fn spec_fourcc(&self) -> FourCc {
        self.fourcc
    }

    /// Whether hardware is preferred.
    pub closed spec fn spec_prefer_hardware(&self) -> bool {
        self.prefer_hardware
    }

    /// The ordered implementations.
    pub closed spec fn spec_ordered(&self) -> Vec<CodecImplementationId> {
        self.ordered_impls
    }

    /// The priority assignments so far.
    pub closed spec fn spec_priorities(&self) -> Vec<(CodecImplementationId, i32)> {
        self.priorities
    }

    /// Whether hardware codecs are preferred.
    pub fn prefer_hardware(self, prefer: bool) -> (r: Self)
        ensures
            r.spec_fourcc() == self.spec_fourcc(),
            r.spec_prefer_hardware() == prefer,
            r.spec_ordered() == self.spec_ordered(),
            r.spec_priorities() == self.spec_priorities(),
    {
        CodecPolicyBuilder { prefer_hardware: prefer, ..self }
    }

    /// The implementations to try first, in order, by normal form.
    pub fn ordered_impls(self, impls: &[&str]) -> (r: Self)
        ensures
            r.spec_fourcc() == self.spec_fourcc(),
            r.spec_prefer_hardware() == self.spec_prefer_hardware(),
            r.spec_ordered()@.len() == impls@.len(),
            forall|i: int| 0 <= i < impls@.len() ==> #[trigger] r.spec_ordered()@[i]@ == normalized(impls@[i]@),
            r.spec_priorities() == self.spec_priorities(),
    {
        CodecPolicyBuilder { ordered_impls: normalize_all(impls), ..self }
    }

    /// Give implementation `impl_name` (by normal form) a priority; lower
    /// priorities are chosen first.
    pub fn priority(self, impl_name: &str, priority: i32) -> (r: Self)
        ensures
            r.spec_fourcc() == self.spec_fourcc(),
            r.spec_prefer_hardware() == self.spec_prefer_hardware(),
            r.spec_ordered() == self.spec_ordered(),
            r.spec_priorities()@.len() == self.spec_priorities()@.len() + 1,
            forall|name: Seq<char>| #[trigger] policy_prio(r.spec_priorities()@, name) == if name == normalized(
                impl_name@,
            ) {
                Some(priority)
            } else {
                policy_prio(self.spec_priorities()@, name)
            },
    {
        let mut b = self;
        let id = CodecImplementationId::new(impl_name);
        let ghost before = b.priorities@;
        b.priorities.push((id, priority));
        proof {
            assert(b.priorities@.drop_last() =~= before);
        }
        b
    }

    /// The policy.
    pub fn build(self) -> (r: CodecPolicy)
        ensures
            r.fourcc == self.spec_fourcc(),
            r.prefer_hardware == self.spec_prefer_hardware(),
            r.ordered_impls == self.spec_ordered(),
            r.priorities == self.spec_priorities(),
    {
        CodecPolicy {
            fourcc: self.fourcc,
            prefer_hardware: self.prefer_hardware,
            ordered_impls: self.ordered_impls,
            priorities: self.priorities,
        }
    }
}

/// What a codec entry is looked up by.
pub enum EntryTest {
    /// Its implementation name in normal form.
    Impl(CodecImplementationId),
    /// Its kind and implementation name in normal form.
    KindImpl(CodecKind, CodecImplementationId),
    /// Being a hardware codec.
    Hardware,
    /// Its output code.
    Output(FourCc),
}

/// The entry passes the test.
pub open spec fn passes(t: EntryTest, e: CodecEntry) -> bool {
    match t {
        EntryTest::Impl(id) => entry_impl(e) == id@,
        EntryTest::KindImpl(k, id) => e.descriptor.kind == k && entry_impl(e) == id@,
        EntryTest::Hardware => entry_hw(e),
        EntryTest::Output(c) => e.descriptor.output == c,
    }
}

fn test_entry(t: &EntryTest, e: &CodecEntry) -> (r: bool)
    ensures
        r == passes(*t, *e),
{
    match t {
        EntryTest::Impl(id) => e.descriptor.implementation_id().same_as(id),
        EntryTest::KindImpl(k, id) => e.descriptor.kind == *k && e.descriptor.implementation_id().same_as(id),
        EntryTest::Hardware => e.descriptor.is_hardware_accelerated(),
        EntryTest::Output(c) => e.descriptor.output == *c,
    }
}

/// The first entry of `l` that passes `t`.
pub open spec fn first_passing(l: Seq<CodecEntry>, t: EntryTest) -> Option<CodecEntry>
    decreases l.len(),
{
    if l.len() == 0 {
        None
    } else if passes(t, l[0]) {
        Some(l[0])
    } else {
        first_passing(l.drop_first(), t)
    }
}

/// The first entry of `l` that passes `t`.
pub fn find_first(l: &Vec<CodecEntry>, t: &EntryTest) -> (r: Option<CodecEntry>)
    ensures
        r == first_passing(l@, *t),
{
    let mut i: usize = 0;
    assert(l@.skip(0) =~= l@);
    while i < l.len()
        invariant
            i <= l@.len(),
            first_passing(l@, *t) == first_passing(l@.skip(i as int), *t),
        decreases l@.len() - i,
    {
        assert(l@.skip(i as int)[0] == l@[i as int]);
        assert(l@.skip(i as int).drop_first() =~= l@.skip(i + 1));
        if test_entry(t, &l[i]) {
            return Some(l[i]);
        }
        i = i + 1;
    }
    None
}

/// The entries of `l` that pass `t`, in order.
pub open spec fn passing(l: Seq<CodecEntry>, t: EntryTest) -> Seq<CodecEntry> {
    l.filter(|e: CodecEntry| passes(t, e))
}

/// The first of `l` whose key is smallest.
pub open spec fn first_min(l: Seq<CodecEntry>, key: spec_fn(CodecEntry) -> SelectKey) -> CodecEntry
    recommends
        l.len() > 0,
    decreases l.len(),
{
    if l.len() <= 1 {
        l[0]
    } else {
        let m = first_min(l.drop_last(), key);
        if key_lt(key(l.last()), key(m)) {
            l.last()
        } else {
            m
        }
    }
}

/// The entry chosen by the first preferred implementation that some
/// candidate has, in preference order.
pub open spec fn first_preferred(l: Seq<CodecEntry>, impls: Seq<CodecImplementationId>) -> Option<CodecEntry>
    decreases impls.len(),
{
    if impls.len() == 0 {
        None
    } else {
        match first_passing(l, EntryTest::Impl(impls[0])) {
            Some(e) => Some(e),
            None => first_preferred(l, impls.drop_first()),
        }
    }
}

/// The codes appear at most once.
pub open spec fn codes_unique(c: Seq<(FourCc, Vec<CodecEntry>)>) -> bool {
    forall|i: int, j: int| 0 <= i < j < c.len() ==> c[i].0 != c[j].0
}

/// The codecs registered for `f`.
pub open spec fn list_of(c: Seq<(FourCc, Vec<CodecEntry>)>, f: FourCc) -> Option<Seq<CodecEntry>> {
    if exists|i: int| 0 <= i < c.len() && c[i].0 == f {
        Some(c[choose|i: int| 0 <= i < c.len() && c[i].0 == f].1@)
    } else {
        None
    }
}

/// The value of the last assignment for `f`.
pub open spec fn last_for<T>(list: Seq<(FourCc, T)>, f: FourCc) -> Option<T>
    decreases list.len(),
{
    if list.len() == 0 {
        None
    } else if list.last().0 == f {
        Some(list.last().1)
    } else {
        last_for(list.drop_last(), f)
    }
}

fn last_pref(list: &Vec<(FourCc, Preference)>, f: FourCc) -> (r: Option<&Preference>)
    ensures
        match last_for(list@, f) {
            None => r is None,
            Some(p) => r matches Some(q) && *q == p,
        },
{
    let mut i = list.len();
    assert(list@.take(i as int) =~= list@);
    while i > 0
        invariant
            i <= list@.len(),
            last_for(list@, f) == last_for(list@.take(i as int), f),
        decreases i,
    {
        proof {
            assert(list@.take(i as int).last() == list@[i - 1]);
            assert(list@.take(i as int).drop_last() =~= list@.take(i - 1));
        }
        if list[i - 1].0 == f {
            return Some(&list[i - 1].1);
        }
        i = i - 1;
    }
    None
}

fn last_flag(list: &Vec<(FourCc, bool)>, f: FourCc) -> (r: Option<bool>)
    ensures
        r == last_for(list@, f),
{
    let mut i = list.len();
    assert(list@.take(i as int) =~= list@);
    while i > 0
        invariant
            i <= list@.len(),
            last_for(list@, f) == last_for(list@.take(i as int), f),
        decreases i,
    {
        proof {
            assert(list@.take(i as int).last() == list@[i - 1]);
            assert(list@.take(i as int).drop_last() =~= list@.take(i - 1));
        }
        if list[i - 1].0 == f {
            return Some(list[i - 1].1);
        }
        i = i - 1;
    }
    None
}

/// The registry's state: the codecs registered for each code in selection
/// order, priorities, preferences, per-code hardware policies and the
/// default hardware bias.
pub struct RegistryCore {
    codecs: Vec<(FourCc, Vec<CodecEntry>)>,
    preferences: Vec<(FourCc, Preference)>,
    impl_priority: Vec<(FourCc, CodecImplementationId, i32)>,
    default_prefer_hardware: bool,
    policies: Vec<(FourCc, bool)>,
}

impl RegistryCore {
    /// Each code has one list of codecs.
    pub closed spec fn wf(&self) -> bool {
        codes_unique(self.codecs@)
    }

    /// The codecs registered for `f`, in selection order.
    pub closed spec fn codecs(&self, f: FourCc) -> Option<Seq<CodecEntry>> {
        list_of(self.codecs@, f)
    }

    /// The codes with a list of codecs, in the order they were first used.
    pub closed spec fn codes(&self) -> Seq<FourCc> {
        self.codecs@.map_values(|p: (FourCc, Vec<CodecEntry>)| p.0)
    }

    /// The priority assignments, the last for a code and name winning.
    pub closed spec fn prio_list(&self) -> Seq<(FourCc, CodecImplementationId, i32)> {
        self.impl_priority@
    }

    /// The preference set for `f`.
    pub closed spec fn preference(&self, f: FourCc) -> Option<Preference> {
        last_for(self.preferences@, f)
    }

    /// Whether the policy set for `f` prefers hardware.
    pub closed spec fn policy_prefers(&self, f: FourCc) -> Option<bool> {
        last_for(self.policies@, f)
    }

    /// Whether hardware codecs are preferred by default.
    pub closed spec fn prefers_hardware(&self) -> bool {
        self.default_prefer_hardware
    }

    /// The selection order of code `f`'s codecs.
    pub open spec fn sort_key(&self, f: FourCc) -> spec_fn(CodecEntry) -> SelectKey {
        key_fn(self.prio_list(), self.prefers_hardware(), f)
    }

    /// The codec automatic selection picks for `f` among `cands`: the
    /// first candidate of the first preferred implementation that has one,
    /// else, where the preference asks for hardware, the first hardware
    /// candidate, else the first candidate with the smallest key, hardware
    /// counting first where the code's policy (or the default) prefers it.
    pub open spec fn auto_pick(&self, f: FourCc, cands: Seq<CodecEntry>) -> Option<CodecEntry> {
        if cands.len() == 0 {
            None
        } else {
            let prefer_hw = match self.policy_prefers(f) {
                Some(b) => b,
                None => self.prefers_hardware(),
            };
            let by_pref = match self.preference(f) {
                Some(p) => match first_preferred(cands, p.impls@) {
                    Some(e) => Some(e),
                    None => if p.prefer_hardware {
                        first_passing(cands, EntryTest::Hardware)
                    } else {
                        None
                    },
                },
                None => None,
            };
            match by_pref {
                Some(e) => Some(e),
                None => Some(first_min(cands, key_fn(self.prio_list(), prefer_hw, f))),
            }
        }
    }

    /// An empty registry that prefers hardware codecs.
    pub fn new() -> (r: Self)
        ensures
            r.wf(),
            forall|f: FourCc| #[trigger] r.codecs(f) is None,
            r.codes().len() == 0,
            r.prio_list().len() == 0,
            forall|f: FourCc| #[trigger] r.preference(f) is None,
            forall|f: FourCc| #[trigger] r.policy_prefers(f) is None,
            r.prefers_hardware(),
    {
        RegistryCore {
            codecs: Vec::new(),
            preferences: Vec::new(),
            impl_priority: Vec::new(),
            default_prefer_hardware: true,
            policies: Vec::new(),
        }
    }

    fn find_code(&self, f: FourCc) -> (r: Option<usize>)
        requires
            self.wf(),
        ensures
            match r {
                None => self.codecs(f) is None,
                Some(i) => i < self.codecs@.len() && self.codecs@[i as int].0 == f && self.codecs(f) == Some(
                    self.codecs@[i as int].1@,
                ),
            },
    {
        let mut i: usize = 0;
        while i < self.codecs.len()
            invariant
                i <= self.codecs@.len(),
                codes_unique(self.codecs@),
                forall|k: int| 0 <= k < i ==> self.codecs@[k].0 != f,
            decreases self.codecs@.len() - i,
        {
            if self.codecs[i].0 == f {
                proof {
                    let c = choose|k: int| 0 <= k < self.codecs@.len() && self.codecs@[k].0 == f;
                    assert(c == i as int);
                }
                return Some(i);
            }
            i = i + 1;
        }
        None
    }

    /// The first codec registered for `f`.
    pub fn lookup(&self, f: FourCc) -> (r: Option<CodecEntry>)
        requires
            self.wf(),
        ensures
            r == match self.codecs(f) {
                Some(l) => if l.len() > 0 {
                    Some(l[0])
                } else {
                    None
                },
                None => None,
            },
    {
        match self.find_code(f) {
            Some(i) => if self.codecs[i].1.len() > 0 {
                Some(self.codecs[i].1[0])
            } else {
                None
            },
            None => None,
        }
    }

    /// The first codec registered for `f` passing `t`.
    pub fn lookup_passing(&self, f: FourCc, t: &EntryTest) -> (r: Option<CodecEntry>)
        requires
            self.wf(),
        ensures
            r == match self.codecs(f) {
                Some(l) => first_passing(l, *t),
                None => None,
            },
    {
        match self.find_code(f) {
            Some(i) => find_first(&self.codecs[i].1, t),
            None => None,
        }
    }

    /// The first codec registered for `f` whose implementation is `id`.
    pub fn lookup_named(&self, f: FourCc, id: CodecImplementationId) -> (r: Option<CodecEntry>)
        requires
            self.wf(),
        ensures
            r == match self.codecs(f) {
                Some(l) => first_passing(l, EntryTest::Impl(id)),
                None => None,
            },
    {
        self.lookup_passing(f, &EntryTest::Impl(id))
    }

    /// The first codec of kind `kind` registered for `f` whose
    /// implementation is `id`.
    pub fn lookup_named_kind(&self, f: FourCc, kind: CodecKind, id: CodecImplementationId) -> (r: Option<CodecEntry>)
        requires
            self.wf(),
        ensures
            r == match self.codecs(f) {
                Some(l) => first_passing(l, EntryTest::KindImpl(kind, id)),
                None => None,
            },
    {
        self.lookup_passing(f, &EntryTest::KindImpl(kind, id))
    }

    /// The first codec registered for `actual` producing `expected`: the
    /// converter put in front of a codec that takes `expected`.
    pub fn lookup_converter(&self, actual: FourCc, expected: FourCc) -> (r: Option<CodecEntry>)
        requires
            self.wf(),
        ensures
            r == match self.codecs(actual) {
                Some(l) => first_passing(l, EntryTest::Output(expected)),
                None => None,
            },
    {
        self.lookup_passing(actual, &EntryTest::Output(expected))
    }
}

proof fn lemma_list_of_update(c: Seq<(FourCc, Vec<CodecEntry>)>, i: int, v: (FourCc, Vec<CodecEntry>))
    requires
        0 <= i < c.len(),
        v.0 == c[i].0,
        codes_unique(c),
    ensures
        codes_unique(c.update(i, v)),
        list_of(c.update(i, v), v.0) == Some(v.1@),
        forall|g: FourCc| g != v.0 ==> #[trigger] list_of(c.update(i, v), g) == list_of(c, g),
{
    let n = c.update(i, v);
    assert forall|g: FourCc| g != v.0 implies #[trigger] list_of(n, g) == list_of(c, g) by {
        assert forall|k: int| 0 <= k < c.len() implies (n[k].0 == g) == (c[k].0 == g) by {}
        if exists|k: int| 0 <= k < c.len() && c[k].0 == g {
            let k1 = choose|k: int| 0 <= k < n.len() && n[k].0 == g;
            let k2 = choose|k: int| 0 <= k < c.len() && c[k].0 == g;
            assert(k1 == k2);
            assert(k1 != i);
        }
    }
    let k1 = choose|k: int| 0 <= k < n.len() && n[k].0 == v.0;
    assert(n[i].0 == v.0);
    assert(k1 == i);
}

proof fn lemma_list_of_push(c: Seq<(FourCc, Vec<CodecEntry>)>, v: (FourCc, Vec<CodecEntry>))
    requires
        codes_unique(c),
        list_of(c, v.0) is None,
    ensures
        codes_unique(c.push(v)),
        list_of(c.push(v), v.0) == Some(v.1@),
        forall|g: FourCc| g != v.0 ==> #[trigger] list_of(c.push(v), g) == list_of(c, g),
{
    let n = c.push(v);
    assert forall|k: int| 0 <= k < c.len() implies c[k].0 != v.0 by {}
    assert(codes_unique(n)) by {
        assert forall|i: int, j: int| 0 <= i < j < n.len() implies n[i].0 != n[j].0 by {
            if j == c.len() {
                assert(n[i] == c[i]);
            } else {
                assert(n[i] == c[i] && n[j] == c[j]);
            }
        }
    }
    assert forall|g: FourCc| g != v.0 implies #[trigger] list_of(n, g) == list_of(c, g) by {
        if exists|k: int| 0 <= k < c.len() && c[k].0 == g {
            let k2 = choose|k: int| 0 <= k < c.len() && c[k].0 == g;
            assert(n[k2] == c[k2]);
            let k1 = choose|k: int| 0 <= k < n.len() && n[k].0 == g;
            assert(k1 == k2);
        } else {
            assert forall|k: int| 0 <= k < n.len() implies n[k].0 != g by {
                if k < c.len() {
                    assert(n[k] == c[k]);
                }
            }
        }
    }
    let k1 = choose|k: int| 0 <= k < n.len() && n[k].0 == v.0;
    assert(n[c.len() as int].0 == v.0);
    assert(k1 == c.len());
}

fn copy_entries(l: &Vec<CodecEntry>) -> (r: Vec<CodecEntry>)
    ensures
        r@ == l@,
{
    let mut out: Vec<CodecEntry> = Vec::new();
    let mut i: usize = 0;
    while i < l.len()
        invariant
            i <= l@.len(),
            out@ == l@.take(i as int),
        decreases l@.len() - i,
    {
        out.push(l[i]);
        assert(l@.take(i + 1) =~= l@.take(i as int).push(l@[i as int]));
        i = i + 1;
    }
    assert(l@.take(l@.len() as int) =~= l@);
    out
}

impl RegistryCore {
    /// Everything but the codec lists is as in `other`.
    pub open spec fn same_settings(&self, other: &Self) -> bool {
        &&& self.prio_list() == other.prio_list()
        &&& forall|f: FourCc| #[trigger] self.preference(f) == other.preference(f)
        &&& forall|f: FourCc| #[trigger] self.policy_prefers(f) == other.policy_prefers(f)
        &&& self.prefers_hardware() == other.prefers_hardware()
    }

    /// Only code `f`'s list differs from `other`'s, which it becomes `l`.
    pub open spec fn list_set(&self, other: &Self, f: FourCc, l: Seq<CodecEntry>) -> bool {
        &&& self.wf()
        &&& self.codecs(f) == Some(l)
        &&& forall|g: FourCc| g != f ==> #[trigger] self.codecs(g) == other.codecs(g)
        &&& self.same_settings(other)
    }

    fn set_list(&mut self, f: FourCc, list: Vec<CodecEntry>)
        requires
            old(self).wf(),
        ensures
            final(self).list_set(&*old(self), f, list@),
    {
        match self.find_code(f) {
            Some(i) => {
                proof {
                    lemma_list_of_update(self.codecs@, i as int, (f, list));
                }
                self.codecs.set(i, (f, list));
            },
            None => {
                proof {
                    lemma_list_of_push(self.codecs@, (f, list));
                }
                self.codecs.push((f, list));
            },
        }
    }

    fn list_copy(&self, f: FourCc) -> (r: Vec<CodecEntry>)
        requires
            self.wf(),
        ensures
            r@ == match self.codecs(f) {
                Some(l) => l,
                None => Seq::empty(),
            },
    {
        match self.find_code(f) {
            Some(i) => copy_entries(&self.codecs[i].1),
            None => Vec::new(),
        }
    }

    /// Register `entry` for `f`: the list is sorted again, stably, by the
    /// selection key.
    pub fn register(&mut self, f: FourCc, entry: CodecEntry)
        requires
            old(self).wf(),
        ensures
            final(self).list_set(
                &*old(self),
                f,
                stable_sorted(
                    match old(self).codecs(f) {
                        Some(l) => l,
                        None => Seq::empty(),
                    }.push(entry),
                    old(self).sort_key(f),
                ),
            ),
    {
        let mut list = self.list_copy(f);
        list.push(entry);
        let sorted = sort_backends(&self.impl_priority, self.default_prefer_hardware, f, &list);
        self.set_list(f, sorted);
    }
}

/// Which codec entries a list keeps.
pub enum Keep {
    /// Those of any implementation but this one.
    NotImpl(CodecImplementationId),
    /// Those of one of these implementations.
    AnyImpl(Vec<CodecImplementationId>),
    /// Those of this kind.
    Kind(CodecKind),
    /// Those of this kind whose codec name, in ASCII lower case, is this.
    KindNamed(CodecKind, String),
}

/// The entry is kept.
pub open spec fn keeps(k: Keep, e: CodecEntry) -> bool {
    match k {
        Keep::NotImpl(id) => entry_impl(e) != id@,
        Keep::AnyImpl(ids) => exists|i: int| 0 <= i < ids@.len() && entry_impl(e) == #[trigger] ids@[i]@,
        Keep::Kind(kind) => e.descriptor.kind == kind,
        Keep::KindNamed(kind, name) => e.descriptor.kind == kind && lower_chars(e.descriptor.name@) == name@,
    }
}

/// The entries of `l` that are kept, in order.
pub open spec fn kept(l: Seq<CodecEntry>, k: Keep) -> Seq<CodecEntry>
    decreases l.len(),
{
    if l.len() == 0 {
        l
    } else if keeps(k, l.last()) {
        kept(l.drop_last(), k).push(l.last())
    } else {
        kept(l.drop_last(), k)
    }
}

fn names_any(ids: &Vec<CodecImplementationId>, own: &CodecImplementationId) -> (r: bool)
    ensures
        r == exists|i: int| 0 <= i < ids@.len() && own@ == #[trigger] ids@[i]@,
{
    let mut i: usize = 0;
    while i < ids.len()
        invariant
            i <= ids@.len(),
            forall|m: int| 0 <= m < i ==> own@ != #[trigger] ids@[m]@,
        decreases ids@.len() - i,
    {
        if own.same_as(&ids[i]) {
            assert(own@ == ids@[i as int]@);
            return true;
        }
        i = i + 1;
    }
    false
}

fn keep_test(k: &Keep, e: &CodecEntry) -> (r: bool)
    ensures
        r == keeps(*k, *e),
{
    match k {
        Keep::NotImpl(id) => !e.descriptor.implementation_id().same_as(id),
        Keep::AnyImpl(ids) => names_any(ids, &e.descriptor.implementation_id()),
        Keep::Kind(kind) => e.descriptor.kind == *kind,
        Keep::KindNamed(kind, name) => e.descriptor.kind == *kind && str_eq(
            ascii_lowercase(e.descriptor.name).as_str(),
            name.as_str(),
        ),
    }
}

/// The entries of `l` that are kept, in order.
pub fn keep_entries(l: &Vec<CodecEntry>, k: &Keep) -> (r: Vec<CodecEntry>)
    ensures
        r@ == kept(l@, *k),
{
    let mut out: Vec<CodecEntry> = Vec::new();
    let mut i: usize = 0;
    while i < l.len()
        invariant
            i <= l@.len(),
            out@ == kept(l@.take(i as int), *k),
        decreases l@.len() - i,
    {
        proof {
            assert(l@.take(i + 1).drop_last() =~= l@.take(i as int));
            assert(l@.take(i + 1).last() == l@[i as int]);
        }
        if keep_test(k, &l[i]) {
            out.push(l[i]);
        }
        i = i + 1;
    }
    assert(l@.take(l@.len() as int) =~= l@);
    out
}

proof fn lemma_first_passing_same_name(l: Seq<CodecEntry>, a: CodecImplementationId, b: CodecImplementationId)
    requires
        a@ == b@,
    ensures
        first_passing(l, EntryTest::Impl(a)) == first_passing(l, EntryTest::Impl(b)),
    decreases l.len(),
{
    if l.len() > 0 {
        lemma_first_passing_same_name(l.drop_first(), a, b);
    }
}

/// The first candidate of the first of `prefs` that some candidate has.
pub fn find_preferred(l: &Vec<CodecEntry>, prefs: &Vec<CodecImplementationId>) -> (r: Option<CodecEntry>)
    ensures
        r == first_preferred(l@, prefs@),
{
    let mut i: usize = 0;
    assert(prefs@.skip(0) =~= prefs@);
    while i < prefs.len()
        invariant
            i <= prefs@.len(),
            first_preferred(l@, prefs@) == first_preferred(l@, prefs@.skip(i as int)),
        decreases prefs@.len() - i,
    {
        assert(prefs@.skip(i as int)[0] == prefs@[i as int]);
        assert(prefs@.skip(i as int).drop_first() =~= prefs@.skip(i + 1));
        let id = prefs[i].duplicate();
        let found = find_first(l, &EntryTest::Impl(id));
        proof {
            lemma_first_passing_same_name(l@, id, prefs@[i as int]);
        }
        if found.is_some() {
            return found;
        }
        i = i + 1;
    }
    None
}

/// The first candidate with the smallest key.
pub fn find_min(
    prios: &Vec<(FourCc, CodecImplementationId, i32)>,
    prefer_hw: bool,
    f: FourCc,
    l: &Vec<CodecEntry>,
) -> (r: CodecEntry)
    requires
        l@.len() > 0,
    ensures
        r == first_min(l@, key_fn(prios@, prefer_hw, f)),
{
    let ghost key = key_fn(prios@, prefer_hw, f);
    let mut best = l[0];
    let mut best_key = entry_key(prios, prefer_hw, f, &best);
    let mut i: usize = 1;
    assert(l@.take(1).len() == 1);
    while i < l.len()
        invariant
            1 <= i <= l@.len(),
            key == key_fn(prios@, prefer_hw, f),
            best == first_min(l@.take(i as int), key),
            key_view(best_key) == key(best),
        decreases l@.len() - i,
    {
        proof {
            assert(l@.take(i + 1).drop_last() =~= l@.take(i as int));
            assert(l@.take(i + 1).last() == l@[i as int]);
        }
        let k = entry_key(prios, prefer_hw, f, &l[i]);
        if key_less(&k, &best_key) {
            best = l[i];
            best_key = k;
        }
        i = i + 1;
    }
    assert(l@.take(l@.len() as int) =~= l@);
    best
}

impl RegistryCore {
    /// Drop `f`'s codecs of implementation `id`.
    pub fn disable_impl(&mut self, f: FourCc, id: CodecImplementationId)
        requires
            old(self).wf(),
        ensures
            match old(self).codecs(f) {
                Some(l) => final(self).list_set(&*old(self), f, kept(l, Keep::NotImpl(id))),
                None => *final(self) == *old(self),
            },
    {
        if self.find_code(f).is_some() {
            let list = self.list_copy(f);
            let kept_list = keep_entries(&list, &Keep::NotImpl(id));
            self.set_list(f, kept_list);
        }
    }

    /// Keep only `f`'s codecs of the implementations named (by normal
    /// form), sorted again by the selection key.
    pub fn enable_only(&mut self, f: FourCc, impl_names: &[&str])
        requires
            old(self).wf(),
        ensures
            match old(self).codecs(f) {
                Some(l) => exists|ids: Vec<CodecImplementationId>| {
                    &&& ids@.len() == impl_names@.len()
                    &&& forall|i: int| 0 <= i < ids@.len() ==> #[trigger] ids@[i]@ == normalized(impl_names@[i]@)
                    &&& final(self).list_set(
                        &*old(self),
                        f,
                        stable_sorted(kept(l, Keep::AnyImpl(ids)), old(self).sort_key(f)),
                    )
                },
                None => *final(self) == *old(self),
            },
    {
        if self.find_code(f).is_some() {
            let list = self.list_copy(f);
            let ids = normalize_all(impl_names);
            let ghost gids = ids;
            let kept_list = keep_entries(&list, &Keep::AnyImpl(ids));
            let sorted = sort_backends(&self.impl_priority, self.default_prefer_hardware, f, &kept_list);
            self.set_list(f, sorted);
            assert(gids@.len() == impl_names@.len());
        }
    }

    /// Give implementation `id` of code `f` a priority, and sort `f`'s
    /// codecs again by the new selection key.
    pub fn set_impl_priority(&mut self, f: FourCc, id: CodecImplementationId, priority: i32)
        requires
            old(self).wf(),
        ensures
            final(self).wf(),
            final(self).prio_list().drop_last() == old(self).prio_list(),
            final(self).prio_list().last().0 == f && final(self).prio_list().last().1@ == id@
                && final(self).prio_list().last().2 == priority,
            forall|g: FourCc| #[trigger] final(self).preference(g) == old(self).preference(g),
            forall|g: FourCc| #[trigger] final(self).policy_prefers(g) == old(self).policy_prefers(g),
            final(self).prefers_hardware() == old(self).prefers_hardware(),
            forall|g: FourCc| g != f ==> #[trigger] final(self).codecs(g) == old(self).codecs(g),
            final(self).codecs(f) == match old(self).codecs(f) {
                Some(l) => Some(stable_sorted(l, final(self).sort_key(f))),
                None => None,
            },
    {
        self.impl_priority.push((f, id, priority));
        proof {
            assert(self.impl_priority@.drop_last() =~= old(self).impl_priority@);
        }
        if self.find_code(f).is_some() {
            let list = self.list_copy(f);
            let sorted = sort_backends(&self.impl_priority, self.default_prefer_hardware, f, &list);
            self.set_list(f, sorted);
        }
    }

    /// Whether hardware codecs are preferred by default.
    pub fn set_default_hardware_bias(&mut self, prefer: bool)
        requires
            old(self).wf(),
        ensures
            final(self).wf(),
            final(self).prefers_hardware() == prefer,
            final(self).prio_list() == old(self).prio_list(),
            forall|g: FourCc| #[trigger] final(self).preference(g) == old(self).preference(g),
            forall|g: FourCc| #[trigger] final(self).policy_prefers(g) == old(self).policy_prefers(g),
            forall|g: FourCc| #[trigger] final(self).codecs(g) == old(self).codecs(g),
    {
        self.default_prefer_hardware = prefer;
    }

    /// Set the preference of code `f`.
    pub fn set_preference(&mut self, f: FourCc, preference: Preference)
        requires
            old(self).wf(),
        ensures
            final(self).wf(),
            final(self).preference(f) == Some(preference),
            forall|g: FourCc| g != f ==> #[trigger] final(self).preference(g) == old(self).preference(g),
            final(self).prio_list() == old(self).prio_list(),
            forall|g: FourCc| #[trigger] final(self).policy_prefers(g) == old(self).policy_prefers(g),
            final(self).prefers_hardware() == old(self).prefers_hardware(),
            forall|g: FourCc| #[trigger] final(self).codecs(g) == old(self).codecs(g),
    {
        self.preferences.push((f, preference));
        proof {
            assert(self.preferences@.drop_last() =~= old(self).preferences@);
        }
    }
}

fn copy_ids(ids: &Vec<CodecImplementationId>) -> (r: Vec<CodecImplementationId>)
    ensures
        r@.len() == ids@.len(),
        forall|i: int| 0 <= i < ids@.len() ==> #[trigger] r@[i]@ == ids@[i]@,
{
    let mut out: Vec<CodecImplementationId> = Vec::new();
    let mut i: usize = 0;
    while i < ids.len()
        invariant
            i <= ids@.len(),
            out@.len() == i,
            forall|m: int| 0 <= m < i ==> #[trigger] out@[m]@ == ids@[m]@,
        decreases ids@.len() - i,
    {
        out.push(ids[i].duplicate());
        i = i + 1;
    }
    out
}

/// What the first preferred implementation, then hardware (where asked),
/// then the list order choose among `l`.
pub open spec fn preferred_pick(l: Seq<CodecEntry>, prefs: Seq<CodecImplementationId>, prefer_hw: bool) -> Option<CodecEntry> {
    match first_preferred(l, prefs) {
        Some(e) => Some(e),
        None => if prefer_hw && first_passing(l, EntryTest::Hardware) is Some {
            first_passing(l, EntryTest::Hardware)
        } else if l.len() > 0 {
            Some(l[0])
        } else {
            None
        },
    }
}

impl RegistryCore {
    /// Apply a policy: its hardware preference becomes the default and the
    /// code's policy, its priorities are assigned for its code, and its
    /// ordered implementations, where there are any, become the code's
    /// preference.  The codec lists are not sorted again.
    pub fn set_policy(&mut self, policy: &CodecPolicy)
        requires
            old(self).wf(),
        ensures
            final(self).wf(),
            final(self).prefers_hardware() == policy.prefer_hardware,
            final(self).policy_prefers(policy.fourcc) == Some(policy.prefer_hardware),
            forall|g: FourCc| g != policy.fourcc ==> #[trigger] final(self).policy_prefers(g) == old(self).policy_prefers(g),
            forall|g: FourCc, name: Seq<char>| #[trigger] prio_of(final(self).prio_list(), g, name) == if g == policy.fourcc
                && policy_prio(policy.priorities@, name) is Some {
                policy_prio(policy.priorities@, name)
            } else {
                prio_of(old(self).prio_list(), g, name)
            },
            policy.ordered_impls@.len() > 0 ==> (final(self).preference(policy.fourcc) matches Some(p) && p.prefer_hardware
                == policy.prefer_hardware && p.impls@.len() == policy.ordered_impls@.len() && forall|i: int|
                0 <= i < p.impls@.len() ==> #[trigger] p.impls@[i]@ == policy.ordered_impls@[i]@),
            policy.ordered_impls@.len() == 0 ==> final(self).preference(policy.fourcc) == old(self).preference(policy.fourcc),
            forall|g: FourCc| g != policy.fourcc ==> #[trigger] final(self).preference(g) == old(self).preference(g),
            forall|g: FourCc| #[trigger] final(self).codecs(g) == old(self).codecs(g),
    {
        let f = policy.fourcc;
        self.default_prefer_hardware = policy.prefer_hardware;
        let ghost base = self.impl_priority@;
        let mut i: usize = 0;
        while i < policy.priorities.len()
            invariant
                i <= policy.priorities@.len(),
                f == policy.fourcc,
                self.default_prefer_hardware == policy.prefer_hardware,
                self.codecs == old(self).codecs,
                self.preferences == old(self).preferences,
                self.policies == old(self).policies,
                base == old(self).impl_priority@,
                self.impl_priority@.len() == base.len() + i,
                self.impl_priority@.take(base.len() as int) == base,
                forall|g: FourCc, name: Seq<char>| #[trigger] prio_of(self.impl_priority@, g, name) == if g == f
                    && policy_prio(policy.priorities@.take(i as int), name) is Some {
                    policy_prio(policy.priorities@.take(i as int), name)
                } else {
                    prio_of(base, g, name)
                },
            decreases policy.priorities@.len() - i,
        {
            let ghost before = self.impl_priority@;
            let id = policy.priorities[i].0.duplicate();
            let p = policy.priorities[i].1;
            self.impl_priority.push((f, id, p));
            proof {
                assert(self.impl_priority@.drop_last() =~= before);
                assert(policy.priorities@.take(i + 1).drop_last() =~= policy.priorities@.take(i as int));
                assert(policy.priorities@.take(i + 1).last() == policy.priorities@[i as int]);
                assert(self.impl_priority@.take(base.len() as int) =~= before.take(base.len() as int));
                assert forall|g: FourCc, name: Seq<char>| #[trigger] prio_of(self.impl_priority@, g, name) == if g == f
                    && policy_prio(policy.priorities@.take(i + 1), name) is Some {
                    policy_prio(policy.priorities@.take(i + 1), name)
                } else {
                    prio_of(base, g, name)
                } by {
                    assert(prio_of(self.impl_priority@, g, name) == if g == f && id@ == name {
                        Some(p)
                    } else {
                        prio_of(before, g, name)
                    });
                    assert(policy_prio(policy.priorities@.take(i + 1), name) == if policy.priorities@[i as int].0@ == name {
                        Some(p)
                    } else {
                        policy_prio(policy.priorities@.take(i as int), name)
                    });
                }
            }
            i = i + 1;
        }
        assert(policy.priorities@.take(policy.priorities@.len() as int) =~= policy.priorities@);
        if policy.ordered_impls.len() > 0 {
            let pref = Preference { impls: copy_ids(&policy.ordered_impls), prefer_hardware: policy.prefer_hardware };
            let ghost before = self.preferences@;
            self.preferences.push((f, pref));
            assert(self.preferences@.drop_last() =~= before);
        }
        let ghost before = self.policies@;
        self.policies.push((f, policy.prefer_hardware));
        assert(self.policies@.drop_last() =~= before);
    }

    /// The codec for `f` among the preferred implementations in order,
    /// else, where hardware is preferred, the first hardware codec, else
    /// the first codec.
    pub fn lookup_preferred_ids(&self, f: FourCc, prefs: &Vec<CodecImplementationId>, prefer_hw: bool) -> (r: Option<CodecEntry>)
        requires
            self.wf(),
        ensures
            r == match self.codecs(f) {
                Some(l) => preferred_pick(l, prefs@, prefer_hw),
                None => None,
            },
    {
        let i = match self.find_code(f) {
            Some(i) => i,
            None => return None,
        };
        let list = &self.codecs[i].1;
        let by_pref = find_preferred(list, prefs);
        if by_pref.is_some() {
            return by_pref;
        }
        if prefer_hw {
            let hw = find_first(list, &EntryTest::Hardware);
            if hw.is_some() {
                return hw;
            }
        }
        if list.len() > 0 {
            Some(list[0])
        } else {
            None
        }
    }

    /// The codec automatic selection picks for `f` among `cands`.
    pub fn select_auto(&self, f: FourCc, cands: &Vec<CodecEntry>) -> (r: Option<CodecEntry>)
        requires
            self.wf(),
        ensures
            r == self.auto_pick(f, cands@),
    {
        if cands.len() == 0 {
            return None;
        }
        let prefer_hw = match last_flag(&self.policies, f) {
            Some(b) => b,
            None => self.default_prefer_hardware,
        };
        match last_pref(&self.preferences, f) {
            Some(pref) => {
                let by_pref = find_preferred(cands, &pref.impls);
                if by_pref.is_some() {
                    return by_pref;
                }
                if pref.prefer_hardware {
                    let hw = find_first(cands, &EntryTest::Hardware);
                    if hw.is_some() {
                        return hw;
                    }
                }
            },
            None => {},
        }
        Some(find_min(&self.impl_priority, prefer_hw, f, cands))
    }

    /// Automatic selection among all of `f`'s codecs.
    pub fn lookup_auto(&self, f: FourCc) -> (r: Option<CodecEntry>)
        requires
            self.wf(),
        ensures
            r == match self.codecs(f) {
                Some(l) => self.auto_pick(f, l),
                None => None,
            },
    {
        match self.find_code(f) {
            Some(i) => self.select_auto(f, &self.codecs[i].1),
            None => None,
        }
    }

    /// Automatic selection among `f`'s codecs that `k` keeps.
    pub fn lookup_auto_kept(&self, f: FourCc, k: &Keep) -> (r: Option<CodecEntry>)
        requires
            self.wf(),
        ensures
            r == match self.codecs(f) {
                Some(l) => self.auto_pick(f, kept(l, *k)),
                None => None,
            },
    {
        match self.find_code(f) {
            Some(i) => {
                let cands = keep_entries(&self.codecs[i].1, k);
                self.select_auto(f, &cands)
            },
            None => None,
        }
    }

    /// Automatic selection among `f`'s codecs of kind `kind`.
    pub fn lookup_auto_kind(&self, f: FourCc, kind: CodecKind) -> (r: Option<CodecEntry>)
        requires
            self.wf(),
        ensures
            r == match self.codecs(f) {
                Some(l) => self.auto_pick(f, kept(l, Keep::Kind(kind))),
                None => None,
            },
    {
        self.lookup_auto_kept(f, &Keep::Kind(kind))
    }

    /// Automatic selection among `f`'s codecs of kind `kind` whose codec
    /// name matches `codec_name` ignoring ASCII case.
    pub fn lookup_auto_kind_by_name(&self, f: FourCc, kind: CodecKind, codec_name: &str) -> (r: Option<CodecEntry>)
        requires
            self.wf(),
        ensures
            match self.codecs(f) {
                Some(l) => exists|name: String| {
                    &&& name@ == lower_chars(codec_name@)
                    &&& r == self.auto_pick(f, kept(l, Keep::KindNamed(kind, name)))
                },
                None => r is None,
            },
    {
        let name = ascii_lowercase(codec_name);
        let ghost gname = name;
        let r = self.lookup_auto_kept(f, &Keep::KindNamed(kind, name));
        proof {
            if self.codecs(f) is Some {
                assert(gname@ == lower_chars(codec_name@));
            }
        }
        r
    }

    /// Some codec of kind `kind` and implementation `id`, with its code;
    /// nothing where no code has one.
    pub fn lookup_by_impl(&self, kind: CodecKind, id: CodecImplementationId) -> (r: Option<(FourCc, CodecEntry)>)
        requires
            self.wf(),
        ensures
            match r {
                Some((f, e)) => self.codecs(f) matches Some(l) && first_passing(l, EntryTest::KindImpl(kind, id)) == Some(e),
                None => forall|f: FourCc| #[trigger] self.codecs(f) is Some ==> first_passing(
                    self.codecs(f)->Some_0,
                    EntryTest::KindImpl(kind, id),
                ) is None,
            },
    {
        let t = EntryTest::KindImpl(kind, id);
        let mut i: usize = 0;
        while i < self.codecs.len()
            invariant
                i <= self.codecs@.len(),
                codes_unique(self.codecs@),
                t == EntryTest::KindImpl(kind, id),
                forall|m: int| 0 <= m < i ==> first_passing(#[trigger] self.codecs@[m].1@, t) is None,
            decreases self.codecs@.len() - i,
        {
            let found = find_first(&self.codecs[i].1, &t);
            match found {
                Some(e) => {
                    let f = self.codecs[i].0;
                    proof {
                        let c = choose|k: int| 0 <= k < self.codecs@.len() && self.codecs@[k].0 == f;
                        assert(c == i as int);
                    }
                    return Some((f, e));
                },
                None => {},
            }
            i = i + 1;
        }
        proof {
            assert forall|f: FourCc| #[trigger] self.codecs(f) is Some implies first_passing(self.codecs(f)->Some_0, t) is None by {
                let c = choose|k: int| 0 <= k < self.codecs@.len() && self.codecs@[k].0 == f;
                assert(first_passing(self.codecs@[c].1@, t) is None);
            }
        }
        None
    }

    /// Every code's codecs, in registration order of the codes.
    pub fn registered(&self) -> (r: Vec<(FourCc, Vec<CodecEntry>)>)
        requires
            self.wf(),
        ensures
            r@.len() == self.codes().len(),
            forall|i: int| 0 <= i < r@.len() ==> (#[trigger] r@[i]).0 == self.codes()[i] && self.codecs(r@[i].0) == Some(
                r@[i].1@,
            ),
    {
        let mut out: Vec<(FourCc, Vec<CodecEntry>)> = Vec::new();
        let mut i: usize = 0;
        while i < self.codecs.len()
            invariant
                i <= self.codecs@.len(),
                codes_unique(self.codecs@),
                out@.len() == i,
                forall|m: int| 0 <= m < i ==> (#[trigger] out@[m]).0 == self.codecs@[m].0 && out@[m].1@ == self.codecs@[m].1@,
            decreases self.codecs@.len() - i,
        {
            out.push((self.codecs[i].0, copy_entries(&self.codecs[i].1)));
            i = i + 1;
        }
        proof {
            assert forall|m: int| 0 <= m < out@.len() implies (#[trigger] out@[m]).0 == self.codes()[m] && self.codecs(out@[m].0) == Some(
                out@[m].1@,
            ) by {
                let f = out@[m].0;
                let c = choose|k: int| 0 <= k < self.codecs@.len() && self.codecs@[k].0 == f;
                assert(self.codecs@[m].0 == f);
                assert(c == m);
            }
        }
        out
    }
}

proof fn lemma_chars_lt_irrefl(a: Seq<char>)
    ensures
        !chars_lt(a, a),
    decreases a.len(),
{
    if a.len() > 0 {
        lemma_chars_lt_irrefl(a.drop_first());
    }
}

proof fn lemma_chars_lt_trans(a: Seq<char>, b: Seq<char>, c: Seq<char>)
    requires
        chars_lt(a, b),
        chars_lt(b, c),
    ensures
        chars_lt(a, c),
    decreases a.len(),
{
    if a.len() > 0 && b.len() > 0 && c.len() > 0 {
        if a[0] == b[0] && b[0] == c[0] {
            lemma_chars_lt_trans(a.drop_first(), b.drop_first(), c.drop_first());
        }
    }
}

proof fn lemma_chars_lt_total(a: Seq<char>, b: Seq<char>)
    ensures
        chars_lt(a, b) || a == b || chars_lt(b, a),
        !(chars_lt(a, b) && chars_lt(b, a)),
    decreases a.len(),
{
    if a.len() == 0 {
        if b.len() == 0 {
            assert(a =~= b);
        }
    } else if b.len() > 0 {
        if a[0] == b[0] {
            lemma_chars_lt_total(a.drop_first(), b.drop_first());
            if a.drop_first() == b.drop_first() {
                assert(a =~= b) by {
                    assert forall|i: int| 0 <= i < a.len() implies a[i] == b[i] by {
                        if i > 0 {
                            assert(a[i] == a.drop_first()[i - 1]);
                            assert(b[i] == b.drop_first()[i - 1]);
                        }
                    }
                }
            }
        }
    }
}

proof fn lemma_key_order(a: SelectKey, b: SelectKey, c: SelectKey)
    ensures
        !key_lt(a, a),
        key_lt(a, b) && key_lt(b, c) ==> key_lt(a, c),
        key_lt(a, b) || a == b || key_lt(b, a),
        !(key_lt(a, b) && key_lt(b, a)),
{
    lemma_chars_lt_irrefl(a.name);
    lemma_chars_lt_total(a.name, b.name);
    if key_lt(a, b) && key_lt(b, c) && a.prio == b.prio && b.prio == c.prio && a.bias == b.bias && b.bias == c.bias {
        lemma_chars_lt_trans(a.name, b.name, c.name);
    }
}

/// No element orders after a later one.
pub open spec fn sorted_by(s: Seq<CodecEntry>, key: spec_fn(CodecEntry) -> SelectKey) -> bool {
    forall|i: int, j: int| 0 <= i < j < s.len() ==> !key_lt(key(#[trigger] s[j]), key(#[trigger] s[i]))
}

proof fn lemma_insert_keeps(s: Seq<CodecEntry>, x: CodecEntry, key: spec_fn(CodecEntry) -> SelectKey)
    ensures
        insert_sorted(s, x, key).to_multiset() == s.to_multiset().insert(x),
    decreases s.len(),
{
    broadcast use vstd::seq_lib::group_to_multiset_ensures;

    if s.len() == 0 {
        assert(seq![x] =~= Seq::<CodecEntry>::empty().push(x));
    } else if key_lt(key(x), key(s.last())) {
        lemma_insert_keeps(s.drop_last(), x, key);
        assert(s.drop_last().push(s.last()) =~= s);
        assert(s.to_multiset() == s.drop_last().to_multiset().insert(s.last()));
        assert(insert_sorted(s, x, key).to_multiset() =~= s.to_multiset().insert(x));
    }
}

/// Sorting keeps exactly the codecs it was given: the result is a
/// permutation of the list.
pub proof fn lemma_sort_keeps_codecs(s: Seq<CodecEntry>, key: spec_fn(CodecEntry) -> SelectKey)
    ensures
        stable_sorted(s, key).to_multiset() == s.to_multiset(),
    decreases s.len(),
{
    broadcast use vstd::seq_lib::group_to_multiset_ensures;

    if s.len() > 0 {
        lemma_sort_keeps_codecs(s.drop_last(), key);
        lemma_insert_keeps(stable_sorted(s.drop_last(), key), s.last(), key);
        assert(s.drop_last().push(s.last()) =~= s);
    }
}

proof fn lemma_insert_sorted(s: Seq<CodecEntry>, x: CodecEntry, key: spec_fn(CodecEntry) -> SelectKey)
    requires
        sorted_by(s, key),
    ensures
        sorted_by(insert_sorted(s, x, key), key),
    decreases s.len(),
{
    broadcast use vstd::seq_lib::group_to_multiset_ensures;

    if s.len() == 0 {
    } else if key_lt(key(x), key(s.last())) {
        let d = s.drop_last();
        let last = s.last();
        assert(sorted_by(d, key)) by {
            assert forall|i: int, j: int| 0 <= i < j < d.len() implies !key_lt(key(#[trigger] d[j]), key(#[trigger] d[i])) by {
                assert(d[i] == s[i] && d[j] == s[j]);
            }
        }
        lemma_insert_sorted(d, x, key);
        lemma_insert_keeps(d, x, key);
        let t = insert_sorted(d, x, key);
        assert forall|i: int| 0 <= i < t.len() implies !key_lt(key(last), key(#[trigger] t[i])) by {
            assert(t.to_multiset().count(t[i]) > 0);
            assert(t.to_multiset() == d.to_multiset().insert(x));
            if t[i] == x {
                lemma_key_order(key(x), key(last), key(last));
            } else {
                assert(d.to_multiset().count(t[i]) > 0);
                assert(d.contains(t[i]));
                let k = choose|k: int| 0 <= k < d.len() && d[k] == t[i];
                assert(s[k] == t[i] && s[s.len() - 1] == last);
            }
        }
        assert forall|i: int, j: int| 0 <= i < j < t.len() + 1 implies !key_lt(
            key(#[trigger] t.push(last)[j]),
            key(#[trigger] t.push(last)[i]),
        ) by {
            if j < t.len() {
                assert(t.push(last)[j] == t[j] && t.push(last)[i] == t[i]);
            } else {
                assert(t.push(last)[j] == last && t.push(last)[i] == t[i]);
            }
        }
    } else {
        let last = s.last();
        assert forall|i: int, j: int| 0 <= i < j < s.len() + 1 implies !key_lt(
            key(#[trigger] s.push(x)[j]),
            key(#[trigger] s.push(x)[i]),
        ) by {
            if j < s.len() {
                assert(s.push(x)[j] == s[j] && s.push(x)[i] == s[i]);
            } else {
                assert(s.push(x)[j] == x && s.push(x)[i] == s[i]);
                lemma_key_order(key(x), key(s[i]), key(last));
                lemma_key_order(key(last), key(x), key(s[i]));
                if i < s.len() - 1 {
                    assert(!key_lt(key(s[s.len() - 1]), key(s[i])));
                }
            }
        }
    }
}

/// Sorting orders the codecs by their selection key: no codec comes
/// after one that orders after it.
pub proof fn lemma_sort_orders_codecs(s: Seq<CodecEntry>, key: spec_fn(CodecEntry) -> SelectKey)
    ensures
        sorted_by(stable_sorted(s, key), key),
    decreases s.len(),
{
    if s.len() > 0 {
        lemma_sort_orders_codecs(s.drop_last(), key);
        lemma_insert_sorted(stable_sorted(s.drop_last(), key), s.last(), key);
    }
}

proof fn lemma_first_passing_found(l: Seq<CodecEntry>, t: EntryTest, k: int)
    requires
        0 <= k < l.len(),
        passes(t, l[k]),
    ensures
        first_passing(l, t) is Some,
    decreases l.len(),
{
    if !passes(t, l[0]) {
        assert(l.drop_first()[k - 1] == l[k]);
        lemma_first_passing_found(l.drop_first(), t, k - 1);
    }
}

/// A codec, once registered for a code, is found by its implementation
/// name: whatever the registry held, the first codec of that name exists
/// in the code's list after registration.
pub proof fn lemma_registered_codec_found(
    before: RegistryCore,
    after: RegistryCore,
    f: FourCc,
    e: CodecEntry,
    id: CodecImplementationId,
)
    requires
        after.list_set(
            &before,
            f,
            stable_sorted(
                match before.codecs(f) {
                    Some(l) => l,
                    None => Seq::empty(),
                }.push(e),
                before.sort_key(f),
            ),
        ),
        id@ == entry_impl(e),
    ensures
        after.codecs(f) matches Some(l) && first_passing(l, EntryTest::Impl(id)) is Some,
{
    broadcast use vstd::seq_lib::group_to_multiset_ensures;

    let base = match before.codecs(f) {
        Some(l) => l,
        None => Seq::empty(),
    };
    let pushed = base.push(e);
    lemma_sort_keeps_codecs(pushed, before.sort_key(f));
    let l = stable_sorted(pushed, before.sort_key(f));
    assert(pushed[base.len() as int] == e);
    assert(pushed.to_multiset().count(e) > 0);
    assert(l.to_multiset().count(e) > 0);
    assert(l.contains(e));
    let k = choose|k: int| 0 <= k < l.len() && l[k] == e;
    lemma_first_passing_found(l, EntryTest::Impl(id), k);
}

} // verus!
