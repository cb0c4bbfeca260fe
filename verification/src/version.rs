//! Versioned templates: a history of snapshots, section-level diffs between
//! versions, and rollback.
use vstd::prelude::*;

use crate::strmap::{
    distinct_keys, has_key, insert_entry, key_index, lemma_insert_entry, lemma_key_index_unique,
    lookup, Duplicate, StrMap,
};
use crate::text::{
    all_ws, chars_of, copy_string, decimal, is_blank, is_ws, joined_lines, lemma_joined_lines_from,
    lemma_trim_shape, lemma_trim_trailing_newline, lines, push_decimal,
    push_str, split_lines, starts_with, str_eq, string_of, sub_chars, trim, trim_chars, views_of,
};

verus! {

// ---------------------------------------------------------------------------
// Outside calls
// ---------------------------------------------------------------------------

/// `std::time::SystemTime::now().duration_since(UNIX_EPOCH)`: the time since
/// the Unix epoch as whole seconds and the nanoseconds beyond them (which
/// `Duration::subsec_nanos` documents as less than one billion), or `None`
/// when the clock reads before the epoch. Which time comes back depends on
/// the clock and is not stated.
#[verifier::external_body]
fn since_unix_epoch() -> (r: Option<(u64, u32)>)
    ensures
        r matches Some((_, nanos)) ==> nanos < 1_000_000_000,
{
    match std::time::SystemTime::now().duration_since(std::time::UNIX_EPOCH) {
        Ok(d) => Some((d.as_secs(), d.subsec_nanos())),
        Err(_) => None,
    }
}

/// What `chrono::DateTime::from_timestamp(secs, nanos)` formatted with
/// `to_rfc3339` gives: `None` where chrono has no such time.
pub uninterp spec fn rfc3339_of(secs: int, nanos: int) -> Option<Seq<char>>;

/// `chrono::DateTime::from_timestamp(secs, nanos)` (UTC), formatted with
/// `to_rfc3339`; `None` when the time is out of chrono's range. The text is
/// named, not spelled out: [`rfc3339_of`].
#[verifier::external_body]
fn rfc3339_from_timestamp(secs: i64, nanos: u32) -> (r: Option<String>)
    ensures
        match r {
            Some(t) => rfc3339_of(secs as int, nanos as int) == Some(t@),
            None => rfc3339_of(secs as int, nanos as int) is None,
        },
{
    match chrono::DateTime::from_timestamp(secs, nanos) {
        Some(t) => Some(t.to_rfc3339()),
        None => None,
    }
}

// ---------------------------------------------------------------------------
// Models
// ---------------------------------------------------------------------------

/// The mathematical value of a [`SectionChange`].
pub enum SectionChangeModel {
    Added { content: Seq<char> },
    Removed { content: Seq<char> },
    Changed { old: Seq<char>, new: Seq<char> },
    Unchanged,
}

/// The mathematical value of a [`VersionDiff`].
pub struct VersionDiffModel {
    pub from_version: nat,
    pub to_version: nat,
    pub section_changes: Seq<(Seq<char>, SectionChangeModel)>,
    pub variable_changes: Seq<(Seq<char>, SectionChangeModel)>,
    pub template_changed: bool,
}

/// The mathematical value of one snapshot of a versioned template.
pub struct SnapshotModel {
    pub version: nat,
    pub template: Seq<char>,
    pub sections: Seq<(Seq<char>, Seq<char>)>,
    pub variables: Seq<(Seq<char>, Seq<char>)>,
    pub timestamp: Seq<char>,
}

/// The mathematical value of a [`PromptVersion`].
pub struct VersionModel {
    pub id: Seq<char>,
    pub name: Seq<char>,
    pub current_version: nat,
    pub history: Seq<SnapshotModel>,
}

// ---------------------------------------------------------------------------
// Types
// ---------------------------------------------------------------------------

/// A change to a specific section between versions.
#[derive(Debug, Clone, PartialEq)]
pub enum SectionChange {
    Added { content: String },
    Removed { content: String },
    Changed { old: String, new: String },
    Unchanged,
}

/// Diff between two versions.
#[derive(Debug, Clone)]
pub struct VersionDiff {
    pub from_version: u32,
    pub to_version: u32,
    pub section_changes: StrMap<SectionChange>,
    pub variable_changes: StrMap<SectionChange>,
    pub template_changed: bool,
}

/// A versioned snapshot of a template.
#[derive(Debug)]
struct VersionedSnapshot {
    version: u32,
    template: String,
    sections: StrMap<String>,
    variables: StrMap<String>,
    timestamp: String,
}

/// Versioned templates with diff capability.
#[derive(Debug, Clone)]
pub struct PromptVersion {
    pub id: String,
    pub name: String,
    current_version: u32,
    history: Vec<VersionedSnapshot>,
}

impl View for SectionChange {
    type V = SectionChangeModel;

    open spec fn view(&self) -> SectionChangeModel {
        match self {
            SectionChange::Added { content } => SectionChangeModel::Added { content: content@ },
            SectionChange::Removed { content } => SectionChangeModel::Removed { content: content@ },
            SectionChange::Changed { old, new } => SectionChangeModel::Changed {
                old: old@,
                new: new@,
            },
            SectionChange::Unchanged => SectionChangeModel::Unchanged,
        }
    }
}

impl View for VersionDiff {
    type V = VersionDiffModel;

    open spec fn view(&self) -> VersionDiffModel {
        VersionDiffModel {
            from_version: self.from_version as nat,
            to_version: self.to_version as nat,
            section_changes: self.section_changes@,
            variable_changes: self.variable_changes@,
            template_changed: self.template_changed,
        }
    }
}

impl View for VersionedSnapshot {
    type V = SnapshotModel;

    closed spec fn view(&self) -> SnapshotModel {
        SnapshotModel {
            version: self.version as nat,
            template: self.template@,
            sections: self.sections@,
            variables: self.variables@,
            timestamp: self.timestamp@,
        }
    }
}

impl View for PromptVersion {
    type V = VersionModel;

    closed spec fn view(&self) -> VersionModel {
        VersionModel {
            id: self.id@,
            name: self.name@,
            current_version: self.current_version as nat,
            history: self.history@.map_values(|s: VersionedSnapshot| s@),
        }
    }
}

impl VersionedSnapshot {
    /// A snapshot's sections are those of its text.
    #[verifier::type_invariant]
    closed spec fn inv(&self) -> bool {
        self.sections@ == sections_of(self.template@)
    }
}

impl Clone for VersionedSnapshot {
    /// A copy of the snapshot.
    fn clone(&self) -> (r: Self)
        ensures
            r@ == self@,
    {
        self.duplicate()
    }
}

impl Duplicate for VersionedSnapshot {
    fn duplicate(&self) -> (r: Self) {
        proof {
            use_type_invariant(self);
        }
        VersionedSnapshot {
            version: self.version,
            template: self.template.duplicate(),
            sections: self.sections.duplicate(),
            variables: self.variables.duplicate(),
            timestamp: self.timestamp.duplicate(),
        }
    }
}

// ---------------------------------------------------------------------------
// Specifications: sections
// ---------------------------------------------------------------------------

/// The state of section parsing: the sections so far, the current section's
/// name and the content gathered for it.
pub struct SectionsState {
    pub sections: Seq<(Seq<char>, Seq<char>)>,
    pub current: Seq<char>,
    pub content: Seq<char>,
}

/// A line that opens a section: it starts with `"## "`.
pub open spec fn is_heading(line: Seq<char>) -> bool {
    line.len() >= 3 && line.take(3) == seq!['#', '#', ' ']
}

/// The sections with the current one stored, unless its content is blank.
pub open spec fn flush(st: SectionsState) -> Seq<(Seq<char>, Seq<char>)> {
    if all_ws(st.content) {
        st.sections
    } else {
        insert_entry(st.sections, st.current, trim(st.content))
    }
}

/// The state after one line: a heading closes the current section and opens
/// one named by the rest of the line (trimmed); another line adds itself and
/// a newline to the content.
pub open spec fn sections_step(st: SectionsState, line: Seq<char>) -> SectionsState {
    if is_heading(line) {
        SectionsState { sections: flush(st), current: trim(line.skip(3)), content: seq![] }
    } else {
        SectionsState { content: st.content + line + seq!['\n'], ..st }
    }
}

/// The state after the first `n` lines, starting in a section named
/// `header`.
pub open spec fn sections_after(ls: Seq<Seq<char>>, n: nat) -> SectionsState
    decreases n,
{
    if n == 0 || n > ls.len() {
        SectionsState { sections: seq![], current: "header"@, content: seq![] }
    } else {
        sections_step(sections_after(ls, (n - 1) as nat), ls[n - 1])
    }
}

/// The sections of a template: its text split at `## ` headings, each
/// section's content trimmed, blank sections left out, a later section of
/// the same name replacing an earlier one.
pub open spec fn sections_of(template: Seq<char>) -> Seq<(Seq<char>, Seq<char>)> {
    flush(sections_after(lines(template), lines(template).len()))
}

// ---------------------------------------------------------------------------
// Specifications: versions and diffs
// ---------------------------------------------------------------------------

/// The timestamp recorded when the clock cannot be read or its time cannot
/// be formatted: the Unix epoch.
pub open spec fn fallback_timestamp() -> Seq<char> {
    "1970-01-01T00:00:00+00:00"@
}

/// A timestamp a snapshot may record: the RFC 3339 text of some time, or
/// the fallback.
pub open spec fn is_timestamp(t: Seq<char>) -> bool {
    t == fallback_timestamp() || exists|secs: int, nanos: int| #[trigger] rfc3339_of(secs, nanos)
        == Some(t)
}

/// The change of one key between two maps, or none when both lack it.
pub open spec fn change_of(from: Option<Seq<char>>, to: Option<Seq<char>>) -> Option<
    SectionChangeModel,
> {
    match (from, to) {
        (None, Some(n)) => Some(SectionChangeModel::Added { content: n }),
        (Some(o), None) => Some(SectionChangeModel::Removed { content: o }),
        (Some(o), Some(n)) => if o == n {
            Some(SectionChangeModel::Unchanged)
        } else {
            Some(SectionChangeModel::Changed { old: o, new: n })
        },
        (None, None) => None,
    }
}

/// `changes` describes, key by key, how `to` differs from `from`: it has
/// exactly the keys of either map, each with its change.
pub open spec fn is_map_diff(
    changes: Seq<(Seq<char>, SectionChangeModel)>,
    from: Seq<(Seq<char>, Seq<char>)>,
    to: Seq<(Seq<char>, Seq<char>)>,
) -> bool {
    &&& distinct_keys(changes)
    &&& forall|k: Seq<char>| #[trigger] lookup(changes, k) == change_of(lookup(from, k), lookup(to, k))
}

/// The number of entries that record an actual change.
pub open spec fn count_changes(e: Seq<(Seq<char>, SectionChangeModel)>) -> nat
    decreases e.len(),
{
    if e.len() == 0 {
        0
    } else {
        count_changes(e.drop_last()) + if e.last().1 is Unchanged {
            0nat
        } else {
            1nat
        }
    }
}

/// The number of changes a diff records: changed sections, changed
/// variables, and one for a changed template text.
pub open spec fn change_count(d: VersionDiffModel) -> nat {
    count_changes(d.section_changes) + count_changes(d.variable_changes) + if d.template_changed {
        1nat
    } else {
        0nat
    }
}

/// The position of the first snapshot with version `v`, or `-1`.
pub open spec fn version_index(h: Seq<SnapshotModel>, v: nat) -> int
    decreases h.len(),
{
    if h.len() == 0 {
        -1
    } else if h[0].version == v {
        0
    } else {
        let r = version_index(h.drop_first(), v);
        if r < 0 {
            -1
        } else {
            r + 1
        }
    }
}

/// The message for a version that does not exist.
pub open spec fn not_found_message(v: nat) -> Seq<char> {
    "Version "@ + decimal(v) + " not found"@
}

/// `d` is the diff from snapshot `a` (version `from`) to snapshot `b`
/// (version `to`).
pub open spec fn is_diff(d: VersionDiffModel, from: nat, to: nat, a: SnapshotModel, b: SnapshotModel) -> bool {
    &&& d.from_version == from
    &&& d.to_version == to
    &&& is_map_diff(d.section_changes, a.sections, b.sections)
    &&& is_map_diff(d.variable_changes, a.variables, b.variables)
    &&& d.template_changed == (a.template != b.template)
}

/// A snapshot restored from its version, text, variables and timestamp: its
/// sections are those of its text.
pub open spec fn restored_snapshot(
    version: nat,
    template: Seq<char>,
    variables: Seq<(Seq<char>, Seq<char>)>,
    timestamp: Seq<char>,
) -> SnapshotModel {
    SnapshotModel { version, template, sections: sections_of(template), variables, timestamp }
}

/// The snapshot that a commit or an initial template records.
pub open spec fn snapshot_of(version: nat, template: Seq<char>, timestamp: Seq<char>) -> SnapshotModel {
    SnapshotModel {
        version,
        template,
        sections: sections_of(template),
        variables: seq![],
        timestamp,
    }
}

/// The state after committing `template` (recorded at `timestamp`).
pub open spec fn commit_spec(m: VersionModel, template: Seq<char>, timestamp: Seq<char>) -> VersionModel {
    VersionModel {
        current_version: m.current_version + 1,
        history: m.history.push(snapshot_of(m.current_version + 1, template, timestamp)),
        ..m
    }
}

/// The snapshots with versions up to `v`, in order.
pub open spec fn keep_upto(h: Seq<SnapshotModel>, v: nat) -> Seq<SnapshotModel>
    decreases h.len(),
{
    if h.len() == 0 {
        seq![]
    } else {
        let prev = keep_upto(h.drop_last(), v);
        if h.last().version <= v {
            prev.push(h.last())
        } else {
            prev
        }
    }
}

/// The state after rolling back to the existing version `v`.
pub open spec fn rollback_spec(m: VersionModel, v: nat) -> VersionModel {
    VersionModel { current_version: v, history: keep_upto(m.history, v), ..m }
}

/// The template of the latest snapshot, if any.
pub open spec fn current_template_of(m: VersionModel) -> Option<Seq<char>> {
    if m.history.len() == 0 {
        None
    } else {
        Some(m.history.last().template)
    }
}

/// The version numbers of the history, in order.
pub open spec fn versions_of(h: Seq<SnapshotModel>) -> Seq<nat> {
    h.map_values(|s: SnapshotModel| s.version)
}

/// The history's versions strictly increase and the latest one is the
/// current version (zero for an empty history).
pub open spec fn well_ordered(m: VersionModel) -> bool {
    &&& forall|i: int, j: int|
        0 <= i < j < m.history.len() ==> (#[trigger] m.history[i]).version < (
        #[trigger] m.history[j]).version
    &&& m.history.len() == 0 ==> m.current_version == 0
    &&& m.history.len() > 0 ==> m.history.last().version == m.current_version
}

/// The text of a section change (what its `Display` shows).
pub open spec fn section_change_text(c: SectionChangeModel) -> Seq<char> {
    match c {
        SectionChangeModel::Added { content } => "+ "@ + content,
        SectionChangeModel::Removed { content } => "- "@ + content,
        SectionChangeModel::Changed { old, new } => "- "@ + old + "\n+ "@ + new,
        SectionChangeModel::Unchanged => "  (unchanged)"@,
    }
}

// ---------------------------------------------------------------------------
// Lemmas
// ---------------------------------------------------------------------------

proof fn lemma_version_index(h: Seq<SnapshotModel>, v: nat)
    ensures
        -1 <= version_index(h, v) < h.len(),
        version_index(h, v) >= 0 ==> h[version_index(h, v)].version == v,
        version_index(h, v) < 0 <==> forall|i: int| 0 <= i < h.len() ==> (#[trigger] h[i]).version != v,
        version_index(h, v) >= 0 ==> forall|i: int|
            0 <= i < version_index(h, v) ==> (#[trigger] h[i]).version != v,
    decreases h.len(),
{
    if h.len() > 0 {
        lemma_version_index(h.drop_first(), v);
        if h[0].version != v {
            assert forall|i: int| 0 < i < h.len() implies (#[trigger] h[i]).version == h.drop_first()[i
                - 1].version by {}
        }
    }
}

proof fn lemma_count_changes_zero(e: Seq<(Seq<char>, SectionChangeModel)>)
    requires
        forall|i: int| 0 <= i < e.len() ==> (#[trigger] e[i]).1 is Unchanged,
    ensures
        count_changes(e) == 0,
    decreases e.len(),
{
    if e.len() > 0 {
        assert forall|i: int| 0 <= i < e.drop_last().len() implies (#[trigger] e.drop_last()[i]).1 is Unchanged by {
            assert(e.drop_last()[i] == e[i]);
        }
        lemma_count_changes_zero(e.drop_last());
    }
}

proof fn lemma_count_changes_le(e: Seq<(Seq<char>, SectionChangeModel)>)
    ensures
        count_changes(e) <= e.len(),
    decreases e.len(),
{
    if e.len() > 0 {
        lemma_count_changes_le(e.drop_last());
    }
}

/// Two empty maps differ in no key.
proof fn lemma_empty_map_diff(changes: Seq<(Seq<char>, SectionChangeModel)>)
    requires
        is_map_diff(changes, seq![], seq![]),
    ensures
        changes.len() == 0,
{
    if changes.len() > 0 {
        lemma_key_index_unique(changes, 0);
        assert(lookup(changes, changes[0].0) == change_of(
            lookup(Seq::<(Seq<char>, Seq<char>)>::empty(), changes[0].0),
            lookup(Seq::<(Seq<char>, Seq<char>)>::empty(), changes[0].0),
        ));
    }
}

// ---------------------------------------------------------------------------
// Implementation
// ---------------------------------------------------------------------------

impl SectionChange {
    /// The text of this change (what `Display` shows).
    pub fn to_string(&self) -> (s: String)
        ensures
            s@ == section_change_text(self@),
    {
        match self {
            SectionChange::Added { content } => {
                let mut s = copy_string("+ ");
                push_str(&mut s, content.as_str());
                s
            },
            SectionChange::Removed { content } => {
                let mut s = copy_string("- ");
                push_str(&mut s, content.as_str());
                s
            },
            SectionChange::Changed { old, new } => {
                let mut s = copy_string("- ");
                push_str(&mut s, old.as_str());
                push_str(&mut s, "\n+ ");
                push_str(&mut s, new.as_str());
                s
            },
            SectionChange::Unchanged => copy_string("  (unchanged)"),
        }
    }
}

impl Duplicate for SectionChange {
    fn duplicate(&self) -> (r: Self) {
        match self {
            SectionChange::Added { content } => SectionChange::Added { content: content.duplicate() },
            SectionChange::Removed { content } => SectionChange::Removed { content: content.duplicate() },
            SectionChange::Changed { old, new } => SectionChange::Changed {
                old: old.duplicate(),
                new: new.duplicate(),
            },
            SectionChange::Unchanged => SectionChange::Unchanged,
        }
    }
}

/// The number of entries of `m` that record an actual change.
fn count_changed(m: &StrMap<SectionChange>) -> (n: usize)
    ensures
        n == count_changes(m@),
{
    let len = m.len();
    let mut n: usize = 0;
    for i in 0..len
        invariant
            len == m@.len(),
            n == count_changes(m@.take(i as int)),
            n <= i,
    {
        assert(m@.take(i + 1).drop_last() =~= m@.take(i as int));
        let unchanged = match m.value_at(i) {
            SectionChange::Unchanged => true,
            _ => false,
        };
        if !unchanged {
            n = n + 1;
        }
    }
    assert(m@.take(len as int) =~= m@);
    n
}

impl VersionDiff {
    /// Count the number of actual changes (not unchanged), with one for a
    /// changed template text.
    pub fn change_count(&self) -> (n: usize)
        requires
            self@.section_changes.len() + self@.variable_changes.len() + 1 <= usize::MAX,
        ensures
            n == change_count(self@),
    {
        let a = count_changed(&self.section_changes);
        let b = count_changed(&self.variable_changes);
        proof {
            lemma_count_changes_le(self@.section_changes);
            lemma_count_changes_le(self@.variable_changes);
        }
        a + b + if self.template_changed {
            1
        } else {
            0
        }
    }

    /// Returns true if there are no changes.
    pub fn is_empty(&self) -> (r: bool)
        requires
            self@.section_changes.len() + self@.variable_changes.len() + 1 <= usize::MAX,
        ensures
            r == (change_count(self@) == 0),
    {
        self.change_count() == 0
    }
}

/// The changes from map `a` to map `b`, key by key.
fn diff_maps(a: &StrMap<String>, b: &StrMap<String>) -> (r: StrMap<SectionChange>)
    ensures
        is_map_diff(r@, a@, b@),
{
    let mut r: StrMap<SectionChange> = StrMap::new();
    let na = a.len();
    let nb = b.len();
    let ghost av = a@;
    let ghost bv = b@;
    // Keys of `a`: removed, unchanged or changed.
    for i in 0..na
        invariant
            na == av.len(),
            av == a@,
            bv == b@,
            distinct_keys(av),
            distinct_keys(bv),
            distinct_keys(r@),
            forall|k: Seq<char>|
                #[trigger] lookup(r@, k) == if exists|j: int| 0 <= j < i && (#[trigger] av[j]).0 == k {
                    change_of(lookup(av, k), lookup(bv, k))
                } else {
                    None
                },
    {
        let key = a.key_at(i);
        let va = a.value_at(i);
        proof {
            lemma_key_index_unique(av, i as int);
        }
        let change = match b.get(key.as_str()) {
            Some(vb) => {
                if str_eq(va.as_str(), vb.as_str()) {
                    SectionChange::Unchanged
                } else {
                    SectionChange::Changed { old: va.duplicate(), new: vb.duplicate() }
                }
            },
            None => SectionChange::Removed { content: va.duplicate() },
        };
        assert(Some(change@) == change_of(lookup(av, key@), lookup(bv, key@)));
        let ghost before = r@;
        proof {
            lemma_insert_entry(before, key@, change@);
        }
        r.insert(key.duplicate(), change);
        assert forall|k: Seq<char>|
            #[trigger] lookup(r@, k) == if exists|j: int| 0 <= j < i + 1 && (#[trigger] av[j]).0 == k {
                change_of(lookup(av, k), lookup(bv, k))
            } else {
                None
            } by {
            if k != key@ {
                assert(lookup(r@, k) == lookup(before, k));
                if exists|j: int| 0 <= j < i + 1 && (#[trigger] av[j]).0 == k {
                    let j = choose|j: int| 0 <= j < i + 1 && (#[trigger] av[j]).0 == k;
                    assert(j != i);
                    assert(0 <= j < i && av[j].0 == k);
                } else {
                    assert(!exists|j: int| 0 <= j < i && (#[trigger] av[j]).0 == k);
                }
            } else {
                assert(av[i as int].0 == k);
                assert(lookup(r@, k) == Some(change@));
            }
        }
    }
    // Keys only in `b`: added.
    for i in 0..nb
        invariant
            na == av.len(),
            nb == bv.len(),
            av == a@,
            bv == b@,
            distinct_keys(av),
            distinct_keys(bv),
            distinct_keys(r@),
            forall|k: Seq<char>|
                #[trigger] lookup(r@, k) == if has_key(av, k) || exists|j: int|
                    0 <= j < i && (#[trigger] bv[j]).0 == k {
                    change_of(lookup(av, k), lookup(bv, k))
                } else {
                    None
                },
    {
        let key = b.key_at(i);
        let vb = b.value_at(i);
        proof {
            lemma_key_index_unique(bv, i as int);
        }
        let ghost before = r@;
        let in_a = a.contains_key(key.as_str());
        if !in_a {
            let change = SectionChange::Added { content: vb.duplicate() };
            assert(Some(change@) == change_of(lookup(av, key@), lookup(bv, key@)));
            proof {
                lemma_insert_entry(before, key@, change@);
            }
            r.insert(key.duplicate(), change);
        }
        assert forall|k: Seq<char>|
            #[trigger] lookup(r@, k) == if has_key(av, k) || exists|j: int|
                0 <= j < i + 1 && (#[trigger] bv[j]).0 == k {
                change_of(lookup(av, k), lookup(bv, k))
            } else {
                None
            } by {
            if k != key@ {
                assert(lookup(r@, k) == lookup(before, k));
                if exists|j: int| 0 <= j < i + 1 && (#[trigger] bv[j]).0 == k {
                    let j = choose|j: int| 0 <= j < i + 1 && (#[trigger] bv[j]).0 == k;
                    assert(j != i);
                    assert(0 <= j < i && bv[j].0 == k);
                } else {
                    assert(!exists|j: int| 0 <= j < i && (#[trigger] bv[j]).0 == k);
                }
            } else {
                assert(bv[i as int].0 == k);
                if in_a {
                    assert(lookup(r@, k) == lookup(before, k));
                }
            }
        }
    }
    assert forall|k: Seq<char>| #[trigger] lookup(r@, k) == change_of(lookup(av, k), lookup(bv, k)) by {
        if has_key(bv, k) {
            let j = key_index_of(bv, k);
            assert(bv[j].0 == k);
        }
    }
    r
}

/// A position holding key `k`, given that some entry has it.
spec fn key_index_of(e: Seq<(Seq<char>, Seq<char>)>, k: Seq<char>) -> int {
    crate::strmap::key_index(e, k)
}

/// The current time in RFC 3339 form, or the fallback when the clock reads
/// before the epoch or beyond chrono's range.
fn timestamp_now() -> (t: String)
    ensures
        is_timestamp(t@),
{
    match since_unix_epoch() {
        Some((secs, nanos)) => {
            if secs <= 0x7fff_ffff_ffff_ffff {
                match rfc3339_from_timestamp(secs as i64, nanos) {
                    Some(t) => {
                        return t;
                    },
                    None => {},
                }
            }
        },
        None => {},
    }
    let t = copy_string("1970-01-01T00:00:00+00:00");
    proof {
        reveal_strlit("1970-01-01T00:00:00+00:00");
    }
    t
}

impl PromptVersion {
    /// Create a new versioned template with no versions.
    pub fn new(id: &str, name: &str) -> (v: Self)
        ensures
            v@ == (VersionModel {
                id: id@,
                name: name@,
                current_version: 0,
                history: Seq::<SnapshotModel>::empty(),
            }),
    {
        let v = PromptVersion {
            id: copy_string(id),
            name: copy_string(name),
            current_version: 0,
            history: Vec::new(),
        };
        assert(v@.history =~= Seq::<SnapshotModel>::empty());
        v
    }

    /// Initialize with a template string: records version 1 and makes it
    /// current.
    pub fn with_initial_template(self, template: &str) -> (v: Self)
        ensures
            v@ == (VersionModel {
                current_version: 1,
                history: self@.history.push(snapshot_of(1, template@, v@.history.last().timestamp)),
                ..self@
            }),
            is_timestamp(v@.history.last().timestamp),
    {
        let sections = self.parse_sections(template);
        let snapshot = VersionedSnapshot {
            version: 1,
            template: copy_string(template),
            sections,
            variables: StrMap::new(),
            timestamp: timestamp_now(),
        };
        let ghost snap = snapshot@;
        let mut history = self.history;
        history.push(snapshot);
        let v = PromptVersion { id: self.id, name: self.name, current_version: 1, history };
        assert(v@.history =~= self@.history.push(snap));
        v
    }

    /// Get the current version number.
    pub fn current_version(&self) -> (n: u32)
        ensures
            n == self@.current_version,
    {
        self.current_version
    }

    /// Get the template of the latest snapshot.
    pub fn current_template(&self) -> (r: Option<&str>)
        ensures
            match r {
                Some(s) => current_template_of(self@) == Some(s@),
                None => current_template_of(self@) is None,
            },
    {
        let n = self.history.len();
        if n == 0 {
            None
        } else {
            assert(self@.history.last() == self.history@[n - 1]@);
            Some(self.history[n - 1].template.as_str())
        }
    }

    /// Commit a new version of the template; returns its number.
    pub fn commit(&mut self, template: &str) -> (v: u32)
        requires
            old(self)@.current_version < u32::MAX,
        ensures
            v == old(self)@.current_version + 1,
            final(self)@ == commit_spec(old(self)@, template@, final(self)@.history.last().timestamp),
            is_timestamp(final(self)@.history.last().timestamp),
    {
        let version = self.current_version + 1;
        let sections = self.parse_sections(template);
        let snapshot = VersionedSnapshot {
            version,
            template: copy_string(template),
            sections,
            variables: StrMap::new(),
            timestamp: timestamp_now(),
        };
        let ghost snap = snapshot@;
        let ghost before = self@;
        self.history.push(snapshot);
        self.current_version = version;
        assert(self@.history =~= before.history.push(snap));
        version
    }

    /// The position of the first snapshot with version `v`.
    fn find_version(&self, v: u32) -> (r: Option<usize>)
        ensures
            match r {
                Some(i) => version_index(self@.history, v as nat) == i,
                None => version_index(self@.history, v as nat) == -1,
            },
    {
        let ghost h = self@.history;
        proof {
            lemma_version_index(h, v as nat);
        }
        let n = self.history.len();
        for i in 0..n
            invariant
                n == self.history@.len(),
                h == self@.history,
                h.len() == n,
                -1 <= version_index(h, v as nat) < n,
                version_index(h, v as nat) >= 0 ==> h[version_index(h, v as nat)].version == v,
                version_index(h, v as nat) < 0 <==> forall|k: int|
                    0 <= k < n ==> (#[trigger] h[k]).version != v,
                version_index(h, v as nat) >= 0 ==> forall|k: int|
                    0 <= k < version_index(h, v as nat) ==> (#[trigger] h[k]).version != v,
                forall|k: int| 0 <= k < i ==> (#[trigger] h[k]).version != v,
        {
            assert(h[i as int].version == self.history@[i as int].version);
            if self.history[i].version == v {
                return Some(i);
            }
        }
        None
    }

    /// The message for a missing version.
    fn not_found(v: u32) -> (m: String)
        ensures
            m@ == not_found_message(v as nat),
    {
        let mut m = copy_string("Version ");
        push_decimal(&mut m, v as u64);
        push_str(&mut m, " not found");
        m
    }

    /// Compute the diff between two versions (the first snapshot of each
    /// number).
    pub fn diff(&self, from: u32, to: u32) -> (r: Result<VersionDiff, String>)
        ensures
            match r {
                Ok(d) => {
                    &&& version_index(self@.history, from as nat) >= 0
                    &&& version_index(self@.history, to as nat) >= 0
                    &&& is_diff(
                        d@,
                        from as nat,
                        to as nat,
                        self@.history[version_index(self@.history, from as nat)],
                        self@.history[version_index(self@.history, to as nat)],
                    )
                    &&& is_map_diff(
                        d@.section_changes,
                        sections_of(self@.history[version_index(self@.history, from as nat)].template),
                        sections_of(self@.history[version_index(self@.history, to as nat)].template),
                    )
                    &&& self@.history[version_index(self@.history, from as nat)].variables.len() == 0
                        && self@.history[version_index(self@.history, to as nat)].variables.len() == 0
                        ==> d@.variable_changes.len() == 0
                },
                Err(m) => if version_index(self@.history, from as nat) < 0 {
                    m@ == not_found_message(from as nat)
                } else {
                    version_index(self@.history, to as nat) < 0 && m@ == not_found_message(
                        to as nat,
                    )
                },
            },
    {
        let fi = match self.find_version(from) {
            Some(i) => i,
            None => {
                return Err(Self::not_found(from));
            },
        };
        let ti = match self.find_version(to) {
            Some(i) => i,
            None => {
                return Err(Self::not_found(to));
            },
        };
        proof {
            lemma_version_index(self@.history, from as nat);
            lemma_version_index(self@.history, to as nat);
        }
        let a = &self.history[fi];
        let b = &self.history[ti];
        proof {
            use_type_invariant(a);
            use_type_invariant(b);
        }
        assert(self@.history[fi as int] == a@);
        assert(self@.history[ti as int] == b@);
        let section_changes = diff_maps(&a.sections, &b.sections);
        let variable_changes = diff_maps(&a.variables, &b.variables);
        let template_changed = !str_eq(a.template.as_str(), b.template.as_str());
        proof {
            if a@.variables.len() == 0 && b@.variables.len() == 0 {
                assert(a@.variables =~= Seq::<(Seq<char>, Seq<char>)>::empty());
                assert(b@.variables =~= Seq::<(Seq<char>, Seq<char>)>::empty());
                lemma_empty_map_diff(variable_changes@);
            }
        }
        Ok(
            VersionDiff {
                from_version: from,
                to_version: to,
                section_changes,
                variable_changes,
                template_changed,
            },
        )
    }

    /// Roll back to a specific version: the history keeps the snapshots up
    /// to and including that version number.
    pub fn rollback(&mut self, version: u32) -> (r: Result<(), String>)
        ensures
            match r {
                Ok(_) => version_index(old(self)@.history, version as nat) >= 0 && final(self)@
                    == rollback_spec(old(self)@, version as nat),
                Err(m) => version_index(old(self)@.history, version as nat) < 0 && final(self)@
                    == old(self)@ && m@ == not_found_message(version as nat),
            },
    {
        if self.find_version(version).is_none() {
            return Err(Self::not_found(version));
        }
        let ghost h = self@.history;
        let n = self.history.len();
        let mut kept: Vec<VersionedSnapshot> = Vec::new();
        assert(h.take(0) =~= Seq::<SnapshotModel>::empty());
        for i in 0..n
            invariant
                n == self.history@.len(),
                h == self@.history,
                h.len() == n,
                kept@.map_values(|s: VersionedSnapshot| s@) == keep_upto(h.take(i as int), version as nat),
        {
            let ghost before = kept@.map_values(|s: VersionedSnapshot| s@);
            assert(h.take(i + 1).drop_last() =~= h.take(i as int));
            assert(h.take(i + 1).last() == self.history@[i as int]@);
            if self.history[i].version <= version {
                kept.push(self.history[i].duplicate());
                assert(kept@.map_values(|s: VersionedSnapshot| s@) =~= before.push(self.history@[i as int]@));
            }
        }
        assert(h.take(n as int) =~= h);
        let ghost old_view = self@;
        self.history = kept;
        self.current_version = version;
        assert(self@ =~= rollback_spec(old_view, version as nat));
        Ok(())
    }

    /// List all versions, in the order of the history.
    pub fn list_versions(&self) -> (r: Vec<u32>)
        ensures
            r@.map_values(|v: u32| v as nat) == versions_of(self@.history),
    {
        let mut r: Vec<u32> = Vec::new();
        let n = self.history.len();
        for i in 0..n
            invariant
                n == self.history@.len(),
                r@.len() == i,
                forall|j: int| 0 <= j < i ==> (#[trigger] r@[j]) == self.history@[j].version,
        {
            r.push(self.history[i].version);
        }
        assert(r@.map_values(|v: u32| v as nat) =~= versions_of(self@.history));
        r
    }

    /// The snapshots of the history, oldest first: each one's version
    /// number, template text, variables and timestamp. Each snapshot's
    /// sections are those of its text.
    pub fn snapshots(&self) -> (r: Vec<(u32, String, StrMap<String>, String)>)
        ensures
            r@.len() == self@.history.len(),
            forall|i: int|
                0 <= i < r@.len() ==> self@.history[i] == restored_snapshot(
                    (#[trigger] r@[i]).0 as nat,
                    r@[i].1@,
                    r@[i].2@,
                    r@[i].3@,
                ),
    {
        let mut r: Vec<(u32, String, StrMap<String>, String)> = Vec::new();
        let n = self.history.len();
        for i in 0..n
            invariant
                n == self.history@.len(),
                r@.len() == i,
                forall|j: int|
                    0 <= j < i ==> self@.history[j] == restored_snapshot(
                        (#[trigger] r@[j]).0 as nat,
                        r@[j].1@,
                        r@[j].2@,
                        r@[j].3@,
                    ),
        {
            let snap = &self.history[i];
            proof {
                use_type_invariant(snap);
            }
            assert(self@.history[i as int] == snap@);
            r.push(
                (
                    snap.version,
                    snap.template.duplicate(),
                    snap.variables.duplicate(),
                    snap.timestamp.duplicate(),
                ),
            );
            assert(r@[i as int].1@ == snap@.template);
        }
        r
    }

    /// A versioned template restored from its snapshots (version number,
    /// template text, variables, timestamp, oldest first), each one's
    /// sections parsed from its text.
    pub fn from_snapshots(
        id: &str,
        name: &str,
        current_version: u32,
        snapshots: &Vec<(u32, String, StrMap<String>, String)>,
    ) -> (v: Self)
        ensures
            v@.id == id@,
            v@.name == name@,
            v@.current_version == current_version,
            v@.history.len() == snapshots@.len(),
            forall|i: int|
                0 <= i < snapshots@.len() ==> v@.history[i] == restored_snapshot(
                    (#[trigger] snapshots@[i]).0 as nat,
                    snapshots@[i].1@,
                    snapshots@[i].2@,
                    snapshots@[i].3@,
                ),
    {
        let mut v = PromptVersion {
            id: copy_string(id),
            name: copy_string(name),
            current_version,
            history: Vec::new(),
        };
        let n = snapshots.len();
        for i in 0..n
            invariant
                n == snapshots@.len(),
                v@.id == id@,
                v@.name == name@,
                v@.current_version == current_version,
                v@.history.len() == i,
                forall|j: int|
                    0 <= j < i ==> v@.history[j] == restored_snapshot(
                        (#[trigger] snapshots@[j]).0 as nat,
                        snapshots@[j].1@,
                        snapshots@[j].2@,
                        snapshots@[j].3@,
                    ),
        {
            let (version, template, variables, timestamp) = &snapshots[i];
            let sections = v.parse_sections(template.as_str());
            let snapshot = VersionedSnapshot {
                version: *version,
                template: template.duplicate(),
                sections,
                variables: variables.duplicate(),
                timestamp: timestamp.duplicate(),
            };
            let ghost snap = snapshot@;
            let ghost before = v@.history;
            v.history.push(snapshot);
            assert(v@.history =~= before.push(snap));
        }
        v
    }

    /// Parse sections from a template (split by `## ` headings).
    pub fn parse_sections(&self, template: &str) -> (sections: StrMap<String>)
        ensures
            sections@ == sections_of(template@),
    {
        let v = chars_of(template);
        let ls = split_lines(v.as_slice());
        let ghost lv = lines(template@);
        assert(views_of(ls@) == lv);
        let mut sections: StrMap<String> = StrMap::new();
        let mut current = copy_string("header");
        let mut content: Vec<char> = Vec::new();
        let heading = ['#', '#', ' '];
        assert(heading@ =~= seq!['#', '#', ' ']);
        let n = ls.len();
        for i in 0..n
            invariant
                n == ls@.len(),
                lv == views_of(ls@),
                lv.len() == n,
                heading@ == seq!['#', '#', ' '],
                sections_after(lv, i as nat) == (SectionsState {
                    sections: sections@,
                    current: current@,
                    content: content@,
                }),
        {
            let line = &ls[i];
            assert(lv[i as int] == line@);
            if starts_with(line.as_slice(), heading.as_slice()) {
                self.flush_section(&mut sections, &current, &content);
                let rest = sub_chars(line.as_slice(), 3, line.len());
                assert(rest@ =~= line@.skip(3));
                let name = trim_chars(rest.as_slice());
                current = string_of(name.as_slice());
                content = Vec::new();
                assert(content@ =~= Seq::<char>::empty());
            } else {
                let ghost before = content@;
                let m = line.len();
                for j in 0..m
                    invariant
                        m == line@.len(),
                        content@ == before + line@.take(j as int),
                {
                    content.push(line[j]);
                    assert(line@.take(j as int).push(line@[j as int]) =~= line@.take(j + 1));
                }
                content.push('\n');
                assert(line@.take(m as int) =~= line@);
                assert(content@ =~= before + line@ + seq!['\n']);
            }
        }
        self.flush_section(&mut sections, &current, &content);
        sections
    }

    /// Stores the current section unless its content is blank.
    fn flush_section(&self, sections: &mut StrMap<String>, current: &String, content: &Vec<char>)
        ensures
            final(sections)@ == flush(
                SectionsState { sections: old(sections)@, current: current@, content: content@ },
            ),
    {
        if !is_blank(content.as_slice()) {
            let t = trim_chars(content.as_slice());
            sections.insert(current.duplicate(), string_of(t.as_slice()));
        }
    }
}

// ---------------------------------------------------------------------------
// Laws
// ---------------------------------------------------------------------------

/// A new versioned template, and one given its initial template, are well
/// ordered.
pub proof fn law_initial_history_well_ordered(m: VersionModel, template: Seq<char>, ts: Seq<char>)
    requires
        m.history.len() == 0,
        m.current_version == 0,
    ensures
        well_ordered(m),
        well_ordered(
            VersionModel {
                current_version: 1,
                history: m.history.push(snapshot_of(1, template, ts)),
                ..m
            },
        ),
{
}

/// Committing makes the committed text the current template, numbers it one
/// past the previous current version, appends that number to the version
/// list, and keeps a well-ordered history well ordered.
pub proof fn law_commit(m: VersionModel, template: Seq<char>, ts: Seq<char>)
    ensures
        current_template_of(commit_spec(m, template, ts)) == Some(template),
        commit_spec(m, template, ts).current_version == m.current_version + 1,
        versions_of(commit_spec(m, template, ts).history) == versions_of(m.history).push(
            m.current_version + 1,
        ),
        well_ordered(m) ==> well_ordered(commit_spec(m, template, ts)),
{
    let c = commit_spec(m, template, ts);
    assert(versions_of(c.history) =~= versions_of(m.history).push(m.current_version + 1));
    if well_ordered(m) {
        assert forall|i: int, j: int|
            0 <= i < j < c.history.len() implies (#[trigger] c.history[i]).version < (
            #[trigger] c.history[j]).version by {
            if j == c.history.len() - 1 {
                if m.history.len() > 0 {
                    assert(c.history[i] == m.history[i]);
                    assert(m.history[i].version <= m.history.last().version);
                }
            } else {
                assert(c.history[i] == m.history[i] && c.history[j] == m.history[j]);
            }
        }
    }
}

proof fn lemma_keep_upto_all(h: Seq<SnapshotModel>, v: nat)
    requires
        forall|i: int| 0 <= i < h.len() ==> (#[trigger] h[i]).version <= v,
    ensures
        keep_upto(h, v) == h,
    decreases h.len(),
{
    if h.len() > 0 {
        assert forall|i: int| 0 <= i < h.drop_last().len() implies (#[trigger] h.drop_last()[i]).version <= v by {
            assert(h.drop_last()[i] == h[i]);
        }
        lemma_keep_upto_all(h.drop_last(), v);
        assert(h.drop_last().push(h.last()) =~= h);
    }
}

proof fn lemma_keep_upto_sorted(h: Seq<SnapshotModel>, v: nat, p: int)
    requires
        forall|i: int, j: int| 0 <= i < j < h.len() ==> (#[trigger] h[i]).version < (#[trigger] h[j]).version,
        0 <= p < h.len(),
        h[p].version == v,
    ensures
        keep_upto(h, v) == h.take(p + 1),
    decreases h.len(),
{
    let init = h.drop_last();
    if p == h.len() - 1 {
        assert forall|i: int| 0 <= i < init.len() implies (#[trigger] init[i]).version <= v by {
            assert(init[i] == h[i]);
        }
        lemma_keep_upto_all(init, v);
        assert(init.push(h.last()) =~= h.take(p + 1));
    } else {
        assert(h.last().version > v);
        assert forall|i: int, j: int| 0 <= i < j < init.len() implies (#[trigger] init[i]).version < (#[trigger] init[j]).version by {
            assert(init[i] == h[i] && init[j] == h[j]);
        }
        assert(init[p] == h[p]);
        lemma_keep_upto_sorted(init, v, p);
        assert(init.take(p + 1) =~= h.take(p + 1));
    }
}

/// Rolling a well-ordered history back to an existing version makes that
/// version current, its template the current template, keeps exactly the
/// versions up to it, and leaves the history well ordered.
pub proof fn law_rollback_restores(m: VersionModel, v: nat)
    requires
        well_ordered(m),
        version_index(m.history, v) >= 0,
    ensures
        rollback_spec(m, v).current_version == v,
        current_template_of(rollback_spec(m, v)) == Some(
            m.history[version_index(m.history, v)].template,
        ),
        rollback_spec(m, v).history == m.history.take(version_index(m.history, v) + 1),
        well_ordered(rollback_spec(m, v)),
{
    lemma_version_index(m.history, v);
    let p = version_index(m.history, v);
    lemma_keep_upto_sorted(m.history, v, p);
    let r = rollback_spec(m, v);
    assert(r.history.last() == m.history[p]);
    assert forall|i: int, j: int|
        0 <= i < j < r.history.len() implies (#[trigger] r.history[i]).version < (
        #[trigger] r.history[j]).version by {
        assert(r.history[i] == m.history[i] && r.history[j] == m.history[j]);
    }
}

/// The diff of a version with itself records no change.
pub proof fn law_diff_with_itself_is_empty(d: VersionDiffModel, v: nat, s: SnapshotModel)
    requires
        is_diff(d, v, v, s, s),
    ensures
        change_count(d) == 0,
        !d.template_changed,
{
    lemma_self_diff_unchanged(d.section_changes, s.sections);
    lemma_self_diff_unchanged(d.variable_changes, s.variables);
}

proof fn lemma_self_diff_unchanged(
    changes: Seq<(Seq<char>, SectionChangeModel)>,
    m: Seq<(Seq<char>, Seq<char>)>,
)
    requires
        is_map_diff(changes, m, m),
    ensures
        count_changes(changes) == 0,
{
    assert forall|i: int| 0 <= i < changes.len() implies (#[trigger] changes[i]).1 is Unchanged by {
        lemma_key_index_unique(changes, i);
        assert(lookup(changes, changes[i].0) == change_of(lookup(m, changes[i].0), lookup(m, changes[i].0)));
    }
    lemma_count_changes_zero(changes);
}

/// A diff reports a changed template exactly when the two texts differ, and
/// a section present in only the later version as added.
pub proof fn law_diff_reports_added_section(
    d: VersionDiffModel,
    from: nat,
    to: nat,
    a: SnapshotModel,
    b: SnapshotModel,
    name: Seq<char>,
)
    requires
        is_diff(d, from, to, a, b),
        !has_key(a.sections, name),
        has_key(b.sections, name),
    ensures
        lookup(d.section_changes, name) == Some(
            SectionChangeModel::Added { content: lookup(b.sections, name)->Some_0 },
        ),
{
    assert(lookup(d.section_changes, name) == change_of(lookup(a.sections, name), lookup(b.sections, name)));
}

/// The history holds the versions `1, 2, ..., current`, in order.
pub open spec fn consecutive(m: VersionModel) -> bool {
    &&& m.history.len() == m.current_version
    &&& forall|i: int| 0 <= i < m.history.len() ==> (#[trigger] m.history[i]).version == i + 1
}

/// The versions `1, 2, ..., n`.
pub open spec fn one_to(n: nat) -> Seq<nat> {
    Seq::new(n, |i: int| (i + 1) as nat)
}

/// Versions stay numbered `1..=current` through every operation that keeps
/// a single initial template: a new versioned template, its initial
/// template, a commit and a rollback to an existing version each keep the
/// history consecutive, and then the version list is `1..=current`.
pub proof fn law_versions_consecutive(
    m: VersionModel,
    template: Seq<char>,
    ts: Seq<char>,
    v: nat,
)
    ensures
        consecutive(VersionModel { current_version: 0, history: seq![], ..m }),
        consecutive(
            VersionModel { current_version: 1, history: seq![snapshot_of(1, template, ts)], ..m },
        ),
        consecutive(m) ==> consecutive(commit_spec(m, template, ts)),
        consecutive(m) && version_index(m.history, v) >= 0 ==> consecutive(rollback_spec(m, v)),
        consecutive(m) ==> versions_of(m.history) == one_to(m.current_version),
{
    if consecutive(m) {
        let c = commit_spec(m, template, ts);
        assert forall|i: int| 0 <= i < c.history.len() implies (#[trigger] c.history[i]).version
            == i + 1 by {
            if i < m.history.len() {
                assert(c.history[i] == m.history[i]);
            }
        }
        assert(versions_of(m.history) =~= one_to(m.current_version));
        if version_index(m.history, v) >= 0 {
            assert(well_ordered(m));
            law_rollback_restores(m, v);
            lemma_version_index(m.history, v);
            let p = version_index(m.history, v);
            let r = rollback_spec(m, v);
            assert(r.history.len() == p + 1);
            assert forall|i: int| 0 <= i < r.history.len() implies (#[trigger] r.history[i]).version
                == i + 1 by {
                assert(r.history[i] == m.history[i]);
            }
        }
    }
}

/// A section change seen from the other side: added and removed swap, the
/// old and new texts of a change swap.
pub open spec fn mirror(c: SectionChangeModel) -> SectionChangeModel {
    match c {
        SectionChangeModel::Added { content } => SectionChangeModel::Removed { content },
        SectionChangeModel::Removed { content } => SectionChangeModel::Added { content },
        SectionChangeModel::Changed { old, new } => SectionChangeModel::Changed { old: new, new: old },
        SectionChangeModel::Unchanged => SectionChangeModel::Unchanged,
    }
}

/// Removing an entry keeps the keys distinct, drops its key and leaves every
/// other key with its value.
proof fn lemma_remove_entry<T>(e: Seq<(Seq<char>, T)>, i: int)
    requires
        distinct_keys(e),
        0 <= i < e.len(),
    ensures
        distinct_keys(e.remove(i)),
        !has_key(e.remove(i), e[i].0),
        forall|k: Seq<char>| k != e[i].0 ==> #[trigger] has_key(e.remove(i), k) == has_key(e, k),
        forall|k: Seq<char>| k != e[i].0 ==> #[trigger] lookup(e.remove(i), k) == lookup(e, k),
{
    let f = e.remove(i);
    assert forall|a: int, b: int|
        0 <= a < f.len() && 0 <= b < f.len() && a != b implies (#[trigger] f[a]).0 != (
        #[trigger] f[b]).0 by {
        let ea = if a < i {
            a
        } else {
            a + 1
        };
        let eb = if b < i {
            b
        } else {
            b + 1
        };
        assert(f[a] == e[ea] && f[b] == e[eb]);
    }
    if has_key(f, e[i].0) {
        let j = choose|j: int| 0 <= j < f.len() && (#[trigger] f[j]).0 == e[i].0;
        let ej = if j < i {
            j
        } else {
            j + 1
        };
        assert(f[j] == e[ej]);
    }
    assert forall|k: Seq<char>|
        #![trigger has_key(f, k)]
        #![trigger lookup(f, k)]
        k != e[i].0 implies has_key(f, k) == has_key(e, k) && lookup(f, k) == lookup(e, k) by {
        if has_key(e, k) {
            let j = key_index(e, k);
            assert(e[j].0 == k);
            assert(j != i);
            let fj = if j < i {
                j
            } else {
                j - 1
            };
            assert(f[fj] == e[j]);
            lemma_key_index_unique(f, fj);
            lemma_key_index_unique(e, j);
        } else if has_key(f, k) {
            let j = choose|j: int| 0 <= j < f.len() && (#[trigger] f[j]).0 == k;
            let ej = if j < i {
                j
            } else {
                j + 1
            };
            assert(f[j] == e[ej]);
        }
    }
}

/// Removing an entry takes away its contribution to the count of changes.
proof fn lemma_count_changes_remove(e: Seq<(Seq<char>, SectionChangeModel)>, i: int)
    requires
        0 <= i < e.len(),
    ensures
        count_changes(e) == count_changes(e.remove(i)) + if e[i].1 is Unchanged {
            0nat
        } else {
            1nat
        },
    decreases e.len(),
{
    if i < e.len() - 1 {
        lemma_count_changes_remove(e.drop_last(), i);
        assert(e.remove(i).drop_last() =~= e.drop_last().remove(i));
        assert(e.remove(i).last() == e.last());
    } else {
        assert(e.remove(i) =~= e.drop_last());
    }
}

/// Two change lists with the same keys, where each key records a change in
/// one exactly when it does in the other, count the same changes.
proof fn lemma_count_changes_same(
    e1: Seq<(Seq<char>, SectionChangeModel)>,
    e2: Seq<(Seq<char>, SectionChangeModel)>,
)
    requires
        distinct_keys(e1),
        distinct_keys(e2),
        forall|k: Seq<char>| #[trigger] has_key(e1, k) == has_key(e2, k),
        forall|k: Seq<char>|
            has_key(e1, k) ==> (#[trigger] lookup(e1, k))->0 is Unchanged == lookup(e2, k)->0 is Unchanged,
    ensures
        count_changes(e1) == count_changes(e2),
    decreases e1.len(),
{
    if e1.len() == 0 {
        if e2.len() > 0 {
            assert(has_key(e2, e2[0].0));
            assert(!has_key(e1, e2[0].0));
        }
    } else {
        let n = e1.len() - 1;
        let k = e1[n].0;
        lemma_key_index_unique(e1, n);
        assert(has_key(e2, k));
        let i2 = key_index(e2, k);
        lemma_key_index_unique(e2, i2);
        lemma_remove_entry(e1, n);
        lemma_remove_entry(e2, i2);
        let f1 = e1.remove(n);
        let f2 = e2.remove(i2);
        assert forall|k2: Seq<char>| #[trigger] has_key(f1, k2) == has_key(f2, k2) by {
            if k2 != k {
                assert(has_key(f1, k2) == has_key(e1, k2));
                assert(has_key(f2, k2) == has_key(e2, k2));
            }
        }
        assert forall|k2: Seq<char>|
            has_key(f1, k2) implies (#[trigger] lookup(f1, k2))->0 is Unchanged == lookup(f2, k2)->0 is Unchanged by {
            assert(k2 != k);
            assert(lookup(f1, k2) == lookup(e1, k2));
            assert(lookup(f2, k2) == lookup(e2, k2));
            assert(has_key(e1, k2));
        }
        lemma_count_changes_same(f1, f2);
        lemma_count_changes_remove(e1, n);
        lemma_count_changes_remove(e2, i2);
        assert(lookup(e1, k) == Some(e1[n].1));
        assert(lookup(e2, k) == Some(e2[i2].1));
    }
}

/// A diff and the diff in the other order record changes for the same keys.
proof fn lemma_mirrored_counts(
    c1: Seq<(Seq<char>, SectionChangeModel)>,
    c2: Seq<(Seq<char>, SectionChangeModel)>,
    a: Seq<(Seq<char>, Seq<char>)>,
    b: Seq<(Seq<char>, Seq<char>)>,
)
    requires
        is_map_diff(c1, a, b),
        is_map_diff(c2, b, a),
    ensures
        count_changes(c1) == count_changes(c2),
{
    assert forall|k: Seq<char>| #[trigger] has_key(c1, k) == has_key(c2, k) by {
        assert(lookup(c1, k) == change_of(lookup(a, k), lookup(b, k)));
        assert(lookup(c2, k) == change_of(lookup(b, k), lookup(a, k)));
    }
    assert forall|k: Seq<char>|
        has_key(c1, k) implies (#[trigger] lookup(c1, k))->0 is Unchanged == lookup(c2, k)->0 is Unchanged by {
        assert(lookup(c1, k) == change_of(lookup(a, k), lookup(b, k)));
        assert(lookup(c2, k) == change_of(lookup(b, k), lookup(a, k)));
    }
    lemma_count_changes_same(c1, c2);
}

/// Diffing in the other order mirrors the diff: the same keys, each change
/// mirrored, the same verdict on the template text and the same number of
/// changes.
pub proof fn law_diff_mirrors(
    d1: VersionDiffModel,
    d2: VersionDiffModel,
    v1: nat,
    v2: nat,
    a: SnapshotModel,
    b: SnapshotModel,
)
    requires
        is_diff(d1, v1, v2, a, b),
        is_diff(d2, v2, v1, b, a),
    ensures
        forall|k: Seq<char>|
            #[trigger] lookup(d2.section_changes, k) == match lookup(d1.section_changes, k) {
                Some(c) => Some(mirror(c)),
                None => None,
            },
        forall|k: Seq<char>|
            #[trigger] lookup(d2.variable_changes, k) == match lookup(d1.variable_changes, k) {
                Some(c) => Some(mirror(c)),
                None => None,
            },
        d2.template_changed == d1.template_changed,
        change_count(d2) == change_count(d1),
{
    lemma_mirrored_counts(d1.section_changes, d2.section_changes, a.sections, b.sections);
    lemma_mirrored_counts(d1.variable_changes, d2.variable_changes, a.variables, b.variables);
    assert forall|k: Seq<char>|
        #[trigger] lookup(d2.section_changes, k) == match lookup(d1.section_changes, k) {
            Some(c) => Some(mirror(c)),
            None => None,
        } by {
        assert(lookup(d1.section_changes, k) == change_of(lookup(a.sections, k), lookup(b.sections, k)));
        assert(lookup(d2.section_changes, k) == change_of(lookup(b.sections, k), lookup(a.sections, k)));
    }
    assert forall|k: Seq<char>|
        #[trigger] lookup(d2.variable_changes, k) == match lookup(d1.variable_changes, k) {
            Some(c) => Some(mirror(c)),
            None => None,
        } by {
        assert(lookup(d1.variable_changes, k) == change_of(lookup(a.variables, k), lookup(b.variables, k)));
        assert(lookup(d2.variable_changes, k) == change_of(lookup(b.variables, k), lookup(a.variables, k)));
    }
}

/// `s` is non-empty and neither begins nor ends with whitespace.
pub open spec fn trimmed_nonempty(s: Seq<char>) -> bool {
    s.len() > 0 && !is_ws(s[0]) && !is_ws(s.last())
}

/// `k` names a section among the first `n` lines: the leading `header`
/// section, or the trimmed rest of a `## ` heading line.
pub open spec fn section_name_in(ls: Seq<Seq<char>>, n: nat, k: Seq<char>) -> bool {
    ||| k == "header"@
    ||| exists|j: int| 0 <= j < n && #[trigger] is_heading(ls[j]) && k == trim(ls[j].skip(3))
}

/// Every entry of a section list is named among the first `n` lines and
/// holds trimmed, non-empty content.
pub open spec fn sections_well_formed(
    ls: Seq<Seq<char>>,
    n: nat,
    e: Seq<(Seq<char>, Seq<char>)>,
) -> bool {
    forall|i: int|
        0 <= i < e.len() ==> trimmed_nonempty((#[trigger] e[i]).1) && section_name_in(ls, n, e[i].0)
}

/// A name among the first `n` lines is one among more lines.
proof fn lemma_section_name_grows(ls: Seq<Seq<char>>, n: nat, m: nat, k: Seq<char>)
    requires
        n <= m,
        section_name_in(ls, n, k),
    ensures
        section_name_in(ls, m, k),
{
    if k != "header"@ {
        let j = choose|j: int| 0 <= j < n && #[trigger] is_heading(ls[j]) && k == trim(ls[j].skip(3));
        assert(0 <= j < m && is_heading(ls[j]) && k == trim(ls[j].skip(3)));
    }
}

/// Storing the current section keeps the section list well formed.
proof fn lemma_flush_well_formed(ls: Seq<Seq<char>>, n: nat, st: SectionsState)
    requires
        sections_well_formed(ls, n, st.sections),
        section_name_in(ls, n, st.current),
    ensures
        sections_well_formed(ls, n, flush(st)),
{
    if !all_ws(st.content) {
        lemma_trim_shape(st.content);
        let e = st.sections;
        let r = flush(st);
        assert forall|i: int| 0 <= i < r.len() implies trimmed_nonempty((#[trigger] r[i]).1)
            && section_name_in(ls, n, r[i].0) by {
            if has_key(e, st.current) {
                let p = crate::strmap::key_index(e, st.current);
                if i != p {
                    assert(r[i] == e[i]);
                }
            } else if i < e.len() {
                assert(r[i] == e[i]);
            }
        }
    }
}

/// Parsing keeps the section list well formed and the current name a
/// section name, line by line.
proof fn lemma_sections_after_well_formed(ls: Seq<Seq<char>>, n: nat)
    requires
        n <= ls.len(),
    ensures
        sections_well_formed(ls, n, sections_after(ls, n).sections),
        section_name_in(ls, n, sections_after(ls, n).current),
    decreases n,
{
    if n > 0 {
        let m = (n - 1) as nat;
        lemma_sections_after_well_formed(ls, m);
        let st = sections_after(ls, m);
        assert forall|i: int| 0 <= i < st.sections.len() implies trimmed_nonempty(
            (#[trigger] st.sections[i]).1,
        ) && section_name_in(ls, n, st.sections[i].0) by {
            lemma_section_name_grows(ls, m, n, st.sections[i].0);
        }
        lemma_section_name_grows(ls, m, n, st.current);
        if is_heading(ls[m as int]) {
            lemma_flush_well_formed(ls, n, st);
            assert(0 <= m < n && is_heading(ls[m as int]) && trim(ls[m as int].skip(3)) == trim(
                ls[m as int].skip(3),
            ));
        }
    }
}

/// Every parsed section holds trimmed, non-empty content, under the name
/// `header` or the trimmed rest of one of the template's `## ` heading
/// lines.
pub proof fn law_sections_named_and_trimmed(template: Seq<char>)
    ensures
        sections_well_formed(lines(template), lines(template).len(), sections_of(template)),
{
    let ls = lines(template);
    lemma_sections_after_well_formed(ls, ls.len());
    lemma_flush_well_formed(ls, ls.len(), sections_after(ls, ls.len()));
}

/// A change list records no change exactly when every entry is unchanged.
proof fn lemma_count_changes_zero_iff(e: Seq<(Seq<char>, SectionChangeModel)>)
    ensures
        count_changes(e) == 0 <==> forall|i: int| 0 <= i < e.len() ==> (#[trigger] e[i]).1 is Unchanged,
    decreases e.len(),
{
    if e.len() > 0 {
        lemma_count_changes_zero_iff(e.drop_last());
        if count_changes(e) == 0 {
            assert forall|i: int| 0 <= i < e.len() implies (#[trigger] e[i]).1 is Unchanged by {
                if i < e.len() - 1 {
                    assert(e[i] == e.drop_last()[i]);
                }
            }
        } else if forall|i: int| 0 <= i < e.len() ==> (#[trigger] e[i]).1 is Unchanged {
            assert forall|i: int| 0 <= i < e.drop_last().len() implies (
            #[trigger] e.drop_last()[i]).1 is Unchanged by {
                assert(e.drop_last()[i] == e[i]);
            }
            assert(e[e.len() - 1].1 is Unchanged);
        }
    }
}

/// A diff counts no change (and `is_empty` holds) exactly when the template
/// text is unchanged and every section and variable entry is unchanged.
pub proof fn law_diff_empty_iff_all_unchanged(d: VersionDiffModel)
    ensures
        change_count(d) == 0 <==> {
            &&& !d.template_changed
            &&& forall|i: int|
                0 <= i < d.section_changes.len() ==> (#[trigger] d.section_changes[i]).1 is Unchanged
            &&& forall|i: int|
                0 <= i < d.variable_changes.len() ==> (#[trigger] d.variable_changes[i]).1 is Unchanged
        },
{
    lemma_count_changes_zero_iff(d.section_changes);
    lemma_count_changes_zero_iff(d.variable_changes);
}

/// Rolling back keeps, in order, exactly the versions up to the target:
/// the versions after it are discarded.
pub proof fn law_rollback_versions(m: VersionModel, v: nat)
    ensures
        versions_of(rollback_spec(m, v).history) == versions_of(m.history).filter(|x: nat| x <= v),
{
    lemma_keep_upto_versions(m.history, v);
}

proof fn lemma_keep_upto_versions(h: Seq<SnapshotModel>, v: nat)
    ensures
        versions_of(keep_upto(h, v)) == versions_of(h).filter(|x: nat| x <= v),
    decreases h.len(),
{
    let pred = |x: nat| x <= v;
    reveal(Seq::filter);
    if h.len() > 0 {
        lemma_keep_upto_versions(h.drop_last(), v);
        let vs = versions_of(h);
        assert(vs.drop_last() =~= versions_of(h.drop_last()));
        assert(vs.last() == h.last().version);
        let sub = vs.drop_last().filter(pred);
        assert(vs.filter(pred) == if pred(vs.last()) {
            sub.push(vs.last())
        } else {
            sub
        });
        let prev = keep_upto(h.drop_last(), v);
        if h.last().version <= v {
            assert(versions_of(prev.push(h.last())) =~= versions_of(prev).push(h.last().version));
        }
    } else {
        assert(versions_of(h) =~= Seq::<nat>::empty());
    }
}

/// An operation on a versioned template: a commit of a text at a time, or a
/// rollback to a version (which leaves everything as it is when the version
/// does not exist).
pub enum VersionOp {
    Commit { template: Seq<char>, timestamp: Seq<char> },
    Rollback { version: nat },
}

/// The state after applying the first `n` operations in order.
pub open spec fn apply_ops(m: VersionModel, ops: Seq<VersionOp>, n: nat) -> VersionModel
    decreases n,
{
    if n == 0 || n > ops.len() {
        m
    } else {
        let prev = apply_ops(m, ops, (n - 1) as nat);
        match ops[n - 1] {
            VersionOp::Commit { template, timestamp } => commit_spec(prev, template, timestamp),
            VersionOp::Rollback { version } => if version_index(prev.history, version) >= 0 {
                rollback_spec(prev, version)
            } else {
                prev
            },
        }
    }
}

/// After a new versioned template, optionally given one initial template,
/// and then any sequence of commits and rollbacks, the version list is
/// `1..=current`, and the current template is the text of the current
/// version (none exactly when the current version is 0).
pub proof fn law_versions_after_any_operations(
    m: VersionModel,
    ops: Seq<VersionOp>,
    n: nat,
)
    requires
        consecutive(m),
        n <= ops.len(),
    ensures
        consecutive(apply_ops(m, ops, n)),
        versions_of(apply_ops(m, ops, n).history) == one_to(apply_ops(m, ops, n).current_version),
        current_template_of(apply_ops(m, ops, n)) == if apply_ops(m, ops, n).current_version == 0 {
            None
        } else {
            Some(
                apply_ops(m, ops, n).history[apply_ops(m, ops, n).current_version - 1].template,
            )
        },
    decreases n,
{
    if n > 0 {
        law_versions_after_any_operations(m, ops, (n - 1) as nat);
        let prev = apply_ops(m, ops, (n - 1) as nat);
        match ops[n - 1] {
            VersionOp::Commit { template, timestamp } => {
                law_versions_consecutive(prev, template, timestamp, 0);
            },
            VersionOp::Rollback { version } => {
                law_versions_consecutive(prev, seq![], seq![], version);
            },
        }
    }
    let r = apply_ops(m, ops, n);
    law_versions_consecutive(r, seq![], seq![], 0);
}

/// Without headings, parsing stays in the `header` section and gathers each
/// line followed by a newline.
proof fn lemma_sections_after_no_heading(ls: Seq<Seq<char>>, n: nat)
    requires
        n <= ls.len(),
        forall|j: int| 0 <= j < n ==> !is_heading(#[trigger] ls[j]),
    ensures
        sections_after(ls, n) == (SectionsState {
            sections: seq![],
            current: "header"@,
            content: joined_lines(ls.take(n as int)),
        }),
    decreases n,
{
    if n == 0 {
        assert(ls.take(0) =~= Seq::<Seq<char>>::empty());
    } else {
        lemma_sections_after_no_heading(ls, (n - 1) as nat);
        assert(!is_heading(ls[n - 1]));
        assert(ls.take(n as int).drop_last() =~= ls.take(n - 1));
        assert(ls.take(n as int).last() == ls[n - 1]);
    }
}

/// A template without `## ` headings (and without carriage returns) has one
/// section, `header`, holding the trimmed template, or none when the
/// template is blank.
pub proof fn law_sections_without_headings(template: Seq<char>)
    requires
        forall|k: int| 0 <= k < template.len() ==> template[k] != '\r',
        forall|j: int| 0 <= j < lines(template).len() ==> !is_heading(#[trigger] lines(template)[j]),
    ensures
        sections_of(template) == if all_ws(template) {
            Seq::<(Seq<char>, Seq<char>)>::empty()
        } else {
            seq![("header"@, trim(template))]
        },
{
    let ls = lines(template);
    lemma_sections_after_no_heading(ls, ls.len());
    assert(ls.take(ls.len() as int) =~= ls);
    lemma_joined_lines_from(template, 0);
    assert(template.skip(0) =~= template);
    let content = joined_lines(ls);
    if template.len() == 0 {
        assert(content =~= Seq::<char>::empty());
        assert(all_ws(template));
    } else if template.last() != '\n' {
        lemma_trim_trailing_newline(template);
    }
    let st = sections_after(ls, ls.len());
    if !all_ws(st.content) {
        assert(!has_key(Seq::<(Seq<char>, Seq<char>)>::empty(), "header"@));
        assert(flush(st) =~= seq![("header"@, trim(template))]);
    }
}

/// A line opens a section exactly when its first three characters are
/// `'#', '#', ' '`: it stores the current section and opens one named by
/// the rest of the line, trimmed. Any other line, such as one that starts
/// `###` or `##x`, is added with a newline to the current section's
/// content.
pub proof fn law_heading_lines(st: SectionsState, line: Seq<char>)
    ensures
        is_heading(line) <==> (line.len() >= 3 && line[0] == '#' && line[1] == '#' && line[2] == ' '),
        (line.len() >= 3 && line[0] == '#' && line[1] == '#' && line[2] == ' ') ==> sections_step(
            st,
            line,
        ) == (SectionsState { sections: flush(st), current: trim(line.skip(3)), content: seq![] }),
        !(line.len() >= 3 && line[0] == '#' && line[1] == '#' && line[2] == ' ') ==> sections_step(
            st,
            line,
        ) == (SectionsState { content: st.content + line + seq!['\n'], ..st }),
{
    if line.len() >= 3 {
        if line[0] == '#' && line[1] == '#' && line[2] == ' ' {
            assert(line.take(3) =~= seq!['#', '#', ' ']);
        } else {
            assert(line.take(3)[0] == line[0] && line.take(3)[1] == line[1] && line.take(3)[2] == line[2]);
        }
    }
}

} // verus!
