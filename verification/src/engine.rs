//! The migration engine: version-gated, in-place translation of every
//! stored record, with cost accounting and a diagnostic pre/post check.
//!
//! One invocation applies at most one version step. A stored value that
//! does not decode under the expected old shape is dropped — a deliberate
//! best-effort policy favouring forward progress over strict preservation.
//! An unrecognized on-disk version applies nothing and is not an error.

use vstd::prelude::*;

use crate::codec::{
    decode_u32, decode_v0, decode_v1, encode_u32, encode_v2, spec_decode_v0, spec_decode_v1,
    spec_encode_v2, u32_le_bytes, u32_le_val,
};
use crate::records::{spec_migrate_v0, spec_migrate_v1};
use crate::storage::{bytes_view, has_key, unique_keys, AssetStorage, StorageModel};

verus! {

/// Outcome of one migration pass: translated-record count, resulting
/// schema version, and the accumulated cost in reads and writes.
#[derive(Clone, Copy, PartialEq, Eq, Debug)]
pub struct MigrationReport {
    pub translated: u64,
    pub version: u16,
    pub reads: u64,
    pub writes: u64,
}

/// Diagnostic-only failures of the pre/post migration check.
#[derive(Clone, Copy, PartialEq, Eq, Debug)]
pub enum InvariantViolation {
    /// The pass would not start from the expected predecessor version.
    NonLinearUpgrade,
    /// Record count after the pass differs from the snapshot before it.
    CountMismatch,
    /// The compiled target is not the version this check expects.
    UnexpectedTarget,
    /// The persisted marker was not advanced to the compiled target.
    MarkerMismatch,
}

/// One stored value under the oldest-to-newest step: decode as the oldest
/// shape, translate, re-encode; a decode failure drops the record.
pub open spec fn v0_value_step(b: Seq<u8>) -> Option<Seq<u8>> {
    match spec_decode_v0(b) {
        Some(r) => Some(spec_encode_v2(spec_migrate_v0(r))),
        None => None,
    }
}

/// One stored value under the intermediate-to-newest step.
pub open spec fn v1_value_step(b: Seq<u8>) -> Option<Seq<u8>> {
    match spec_decode_v1(b) {
        Some(r) => Some(spec_encode_v2(spec_migrate_v1(r))),
        None => None,
    }
}

/// The whole collection under the oldest-to-newest step: every value
/// translated in place, undecodable records dropped, keys and order kept.
pub open spec fn spec_translate_v0(s: Seq<(u64, Seq<u8>)>) -> Seq<(u64, Seq<u8>)>
    decreases s.len(),
{
    if s.len() == 0 {
        Seq::empty()
    } else {
        let rest = spec_translate_v0(s.drop_last());
        match v0_value_step(s.last().1) {
            Some(nb) => rest.push((s.last().0, nb)),
            None => rest,
        }
    }
}

/// The whole collection under the intermediate-to-newest step.
pub open spec fn spec_translate_v1(s: Seq<(u64, Seq<u8>)>) -> Seq<(u64, Seq<u8>)>
    decreases s.len(),
{
    if s.len() == 0 {
        Seq::empty()
    } else {
        let rest = spec_translate_v1(s.drop_last());
        match v1_value_step(s.last().1) {
            Some(nb) => rest.push((s.last().0, nb)),
            None => rest,
        }
    }
}

/// Whether a migration step exists from the on-disk version to the target.
pub open spec fn step_applies(disk: u16, target: u16) -> bool {
    (disk == 0 && target == 1) || (disk == 1 && target == 2)
}

/// The version marker after one engine invocation.
pub open spec fn next_version(disk: u16, target: u16) -> u16 {
    if step_applies(disk, target) {
        target
    } else {
        disk
    }
}

/// The stored entries after one engine invocation.
pub open spec fn next_entries(s: Seq<(u64, Seq<u8>)>, disk: u16, target: u16) -> Seq<
    (u64, Seq<u8>),
> {
    if disk == 0 && target == 1 {
        spec_translate_v0(s)
    } else if disk == 1 && target == 2 {
        spec_translate_v1(s)
    } else {
        s
    }
}

/// How many records one engine invocation translates.
pub open spec fn translated_count(s: Seq<(u64, Seq<u8>)>, disk: u16, target: u16) -> int {
    if step_applies(disk, target) {
        next_entries(s, disk, target).len() as int
    } else {
        0
    }
}

proof fn lemma_translate_v0_len(s: Seq<(u64, Seq<u8>)>)
    ensures
        spec_translate_v0(s).len() <= s.len(),
    decreases s.len(),
{
    if s.len() > 0 {
        lemma_translate_v0_len(s.drop_last());
    }
}

proof fn lemma_translate_v1_len(s: Seq<(u64, Seq<u8>)>)
    ensures
        spec_translate_v1(s).len() <= s.len(),
    decreases s.len(),
{
    if s.len() > 0 {
        lemma_translate_v1_len(s.drop_last());
    }
}

proof fn lemma_translate_v0_keys(s: Seq<(u64, Seq<u8>)>)
    ensures
        forall|j: int|
            0 <= j < spec_translate_v0(s).len() ==> has_key(
                s,
                #[trigger] spec_translate_v0(s)[j].0,
            ),
        unique_keys(s) ==> unique_keys(spec_translate_v0(s)),
    decreases s.len(),
{
    if s.len() > 0 {
        let prefix = s.drop_last();
        let rest = spec_translate_v0(prefix);
        lemma_translate_v0_keys(prefix);
        assert forall|k: u64| has_key(prefix, k) implies has_key(s, k) by {
            let i = choose|i: int| 0 <= i < prefix.len() && prefix[i].0 == k;
            assert(s[i].0 == k);
        }
        assert(has_key(s, s.last().0)) by {
            assert(s[s.len() - 1].0 == s.last().0);
        }
        if unique_keys(s) {
            assert(unique_keys(prefix));
            match v0_value_step(s.last().1) {
                Some(nb) => {
                    let t = rest.push((s.last().0, nb));
                    assert forall|i: int, j: int| 0 <= i < j < t.len() implies t[i].0 != t[j].0 by {
                        if j < t.len() - 1 {
                            assert(rest[i].0 != rest[j].0);
                        } else {
                            assert(has_key(prefix, rest[i].0));
                            let m = choose|m: int|
                                0 <= m < prefix.len() && prefix[m].0 == rest[i].0;
                            assert(s[m].0 == rest[i].0);
                            assert(s[m].0 != s[s.len() - 1].0);
                        }
                    }
                },
                None => {},
            }
        }
    }
}

proof fn lemma_translate_v1_keys(s: Seq<(u64, Seq<u8>)>)
    ensures
        forall|j: int|
            0 <= j < spec_translate_v1(s).len() ==> has_key(
                s,
                #[trigger] spec_translate_v1(s)[j].0,
            ),
        unique_keys(s) ==> unique_keys(spec_translate_v1(s)),
    decreases s.len(),
{
    if s.len() > 0 {
        let prefix = s.drop_last();
        let rest = spec_translate_v1(prefix);
        lemma_translate_v1_keys(prefix);
        assert forall|k: u64| has_key(prefix, k) implies has_key(s, k) by {
            let i = choose|i: int| 0 <= i < prefix.len() && prefix[i].0 == k;
            assert(s[i].0 == k);
        }
        assert(has_key(s, s.last().0)) by {
            assert(s[s.len() - 1].0 == s.last().0);
        }
        if unique_keys(s) {
            assert(unique_keys(prefix));
            match v1_value_step(s.last().1) {
                Some(nb) => {
                    let t = rest.push((s.last().0, nb));
                    assert forall|i: int, j: int| 0 <= i < j < t.len() implies t[i].0 != t[j].0 by {
                        if j < t.len() - 1 {
                            assert(rest[i].0 != rest[j].0);
                        } else {
                            assert(has_key(prefix, rest[i].0));
                            let m = choose|m: int|
                                0 <= m < prefix.len() && prefix[m].0 == rest[i].0;
                            assert(s[m].0 == rest[i].0);
                            assert(s[m].0 != s[s.len() - 1].0);
                        }
                    }
                },
                None => {},
            }
        }
    }
}

fn translate_from_v0(entries: &mut Vec<(u64, Vec<u8>)>) -> (translated: u64)
    requires
        old(entries)@.len() < u64::MAX,
    ensures
        bytes_view(final(entries)@) == spec_translate_v0(bytes_view(old(entries)@)),
        translated == spec_translate_v0(bytes_view(old(entries)@)).len(),
{
    let ghost orig: Seq<(u64, Seq<u8>)> = bytes_view(entries@);
    let mut out: Vec<(u64, Vec<u8>)> = Vec::new();
    let mut translated: u64 = 0;
    let mut i: usize = 0;
    proof {
        assert(orig.take(0) =~= Seq::<(u64, Seq<u8>)>::empty());
        assert(bytes_view(out@) =~= Seq::<(u64, Seq<u8>)>::empty());
    }
    while i < entries.len()
        invariant
            i <= entries@.len(),
            entries@.len() < u64::MAX,
            bytes_view(entries@) == orig,
            orig.len() == entries@.len(),
            bytes_view(out@) == spec_translate_v0(orig.take(i as int)),
            translated == spec_translate_v0(orig.take(i as int)).len(),
            translated <= i,
        decreases entries@.len() - i,
    {
        let key = entries[i].0;
        let decoded = decode_v0(&entries[i].1);
        proof {
            assert(orig[i as int] == (entries@[i as int].0, entries@[i as int].1@));
        }
        match decoded {
            Some(r) => {
                let nb = encode_v2(&r.migrate_from_v0_to_v2());
                out.push((key, nb));
                translated = translated + 1;
            },
            None => {},
        }
        proof {
            let prev = orig.take(i as int);
            let cur = orig.take(i as int + 1);
            assert(cur.drop_last() =~= prev);
            assert(cur.last() == orig[i as int]);
            match v0_value_step(orig[i as int].1) {
                Some(nb) => {
                    assert(bytes_view(out@) =~= spec_translate_v0(prev).push(
                        (orig[i as int].0, nb),
                    ));
                },
                None => {},
            }
        }
        i = i + 1;
    }
    proof {
        assert(orig.take(entries@.len() as int) =~= orig);
    }
    *entries = out;
    translated
}

fn translate_from_v1(entries: &mut Vec<(u64, Vec<u8>)>) -> (translated: u64)
    requires
        old(entries)@.len() < u64::MAX,
    ensures
        bytes_view(final(entries)@) == spec_translate_v1(bytes_view(old(entries)@)),
        translated == spec_translate_v1(bytes_view(old(entries)@)).len(),
{
    let ghost orig: Seq<(u64, Seq<u8>)> = bytes_view(entries@);
    let mut out: Vec<(u64, Vec<u8>)> = Vec::new();
    let mut translated: u64 = 0;
    let mut i: usize = 0;
    proof {
        assert(orig.take(0) =~= Seq::<(u64, Seq<u8>)>::empty());
        assert(bytes_view(out@) =~= Seq::<(u64, Seq<u8>)>::empty());
    }
    while i < entries.len()
        invariant
            i <= entries@.len(),
            entries@.len() < u64::MAX,
            bytes_view(entries@) == orig,
            orig.len() == entries@.len(),
            bytes_view(out@) == spec_translate_v1(orig.take(i as int)),
            translated == spec_translate_v1(orig.take(i as int)).len(),
            translated <= i,
        decreases entries@.len() - i,
    {
        let key = entries[i].0;
        let decoded = decode_v1(&entries[i].1);
        proof {
            assert(orig[i as int] == (entries@[i as int].0, entries@[i as int].1@));
        }
        match decoded {
            Some(r) => {
                let nb = encode_v2(&r.migrate_from_v1_to_v2());
                out.push((key, nb));
                translated = translated + 1;
            },
            None => {},
        }
        proof {
            let prev = orig.take(i as int);
            let cur = orig.take(i as int + 1);
            assert(cur.drop_last() =~= prev);
            assert(cur.last() == orig[i as int]);
            match v1_value_step(orig[i as int].1) {
                Some(nb) => {
                    assert(bytes_view(out@) =~= spec_translate_v1(prev).push(
                        (orig[i as int].0, nb),
                    ));
                },
                None => {},
            }
        }
        i = i + 1;
    }
    proof {
        assert(orig.take(entries@.len() as int) =~= orig);
    }
    *entries = out;
    translated
}

/// The version-gated migration pass to the newest schema.
pub struct MigrateToV2;

impl MigrateToV2 {
    /// One migration pass. Reads the persisted version and the compiled
    /// target: when the persisted version is the known predecessor of the
    /// target, every record is translated in place, the marker advances to
    /// the target, and the cost is one read and one write per translated
    /// record plus one of each for the marker. When the persisted version
    /// already equals the target, or matches no known predecessor, nothing
    /// is touched and the cost is a single read. The collection must be
    /// smaller than the 64-bit metering counter can count.
    pub fn on_runtime_upgrade(storage: &mut AssetStorage, current_version: u16) -> (r:
        MigrationReport)
        requires
            old(storage).wf(),
            old(storage)@.entries.len() < u64::MAX,
        ensures
            final(storage).wf(),
            final(storage)@.version == next_version(old(storage)@.version, current_version),
            final(storage)@.entries == next_entries(
                old(storage)@.entries,
                old(storage)@.version,
                current_version,
            ),
            r.translated == translated_count(
                old(storage)@.entries,
                old(storage)@.version,
                current_version,
            ),
            r.version == final(storage)@.version,
            step_applies(old(storage)@.version, current_version) ==> r.reads == r.translated + 1
                && r.writes == r.translated + 1,
            !step_applies(old(storage)@.version, current_version) ==> r.reads == 1 && r.writes
                == 0,
    {
        if storage.version == 0 && current_version == 1 {
            proof {
                lemma_translate_v0_len(bytes_view(storage.entries@));
                lemma_translate_v0_keys(bytes_view(storage.entries@));
            }
            let translated = translate_from_v0(&mut storage.entries);
            storage.version = current_version;
            MigrationReport {
                translated,
                version: current_version,
                reads: translated + 1,
                writes: translated + 1,
            }
        } else if storage.version == 1 && current_version == 2 {
            proof {
                lemma_translate_v1_len(bytes_view(storage.entries@));
                lemma_translate_v1_keys(bytes_view(storage.entries@));
            }
            let translated = translate_from_v1(&mut storage.entries);
            storage.version = current_version;
            MigrationReport {
                translated,
                version: current_version,
                reads: translated + 1,
                writes: translated + 1,
            }
        } else {
            MigrationReport { translated: 0, version: storage.version, reads: 1, writes: 0 }
        }
    }

    /// Diagnostic pre-migration check: refuses to snapshot unless the pass
    /// would start from the expected predecessor version, then snapshots
    /// the record count.
    pub fn pre_upgrade(storage: &AssetStorage) -> (r: Result<Vec<u8>, InvariantViolation>)
        requires
            storage@.entries.len() <= u32::MAX,
        ensures
            storage@.version == 0 <==> r is Ok,
            (r matches Ok(c) ==> c@ == u32_le_bytes(storage@.entries.len() as u32)),
            (r matches Err(e) ==> e == InvariantViolation::NonLinearUpgrade),
    {
        if storage.version() != 0 {
            return Err(InvariantViolation::NonLinearUpgrade);
        }
        let count = storage.len() as u32;
        Ok(encode_u32(count))
    }

    /// Diagnostic post-migration check: compares the record count with the
    /// pre-migration snapshot, then checks that the compiled target is the
    /// expected one and that the marker reached it.
    pub fn post_upgrade(storage: &AssetStorage, current_version: u16, state: &Vec<u8>) -> (r:
        Result<(), InvariantViolation>)
        requires
            state@.len() == 4,
        ensures
            r == spec_post_check(storage@, current_version, state@),
    {
        let prev_count = decode_u32(state);
        let post_count = storage.len();
        if post_count as u64 != prev_count as u64 {
            return Err(InvariantViolation::CountMismatch);
        }
        if current_version != 1 {
            return Err(InvariantViolation::UnexpectedTarget);
        }
        if storage.version() != current_version {
            return Err(InvariantViolation::MarkerMismatch);
        }
        Ok(())
    }
}

/// What the diagnostic post-migration check reports on a given state: the
/// count mismatch is found first, then an unexpected target, then a marker
/// that did not advance.
pub open spec fn spec_post_check(
    m: StorageModel,
    current_version: u16,
    snapshot: Seq<u8>,
) -> Result<(), InvariantViolation> {
    if u32_le_val(snapshot, 0) != m.entries.len() {
        Err(InvariantViolation::CountMismatch)
    } else if current_version != 1 {
        Err(InvariantViolation::UnexpectedTarget)
    } else if m.version != current_version {
        Err(InvariantViolation::MarkerMismatch)
    } else {
        Ok(())
    }
}

/// Idempotence: a second invocation with an unchanged target translates
/// nothing and leaves both the entries and the version marker exactly as
/// the first invocation left them.
pub proof fn lemma_apply_twice_inert(s: Seq<(u64, Seq<u8>)>, disk: u16, target: u16)
    ensures
        next_version(next_version(disk, target), target) == next_version(disk, target),
        next_entries(next_entries(s, disk, target), next_version(disk, target), target)
            == next_entries(s, disk, target),
        translated_count(next_entries(s, disk, target), next_version(disk, target), target) == 0,
{
}

/// Monotonic version: one invocation never lowers the version marker,
/// whatever target is supplied.
pub proof fn lemma_version_monotonic(disk: u16, target: u16)
    ensures
        next_version(disk, target) >= disk,
{
}

/// The version marker after a sequence of invocations with the given
/// targets, in order.
pub open spec fn version_after(disk: u16, targets: Seq<u16>) -> u16
    decreases targets.len(),
{
    if targets.len() == 0 {
        disk
    } else {
        version_after(next_version(disk, targets.first()), targets.drop_first())
    }
}

/// Monotonic version across any call sequence: however many invocations
/// run, and whatever targets they carry, the version marker never
/// decreases.
pub proof fn lemma_version_monotonic_sequence(disk: u16, targets: Seq<u16>)
    ensures
        version_after(disk, targets) >= disk,
    decreases targets.len(),
{
    if targets.len() > 0 {
        lemma_version_monotonic(disk, targets.first());
        lemma_version_monotonic_sequence(next_version(disk, targets.first()), targets.drop_first());
    }
}

/// Count preservation under the oldest-to-newest step: when every stored
/// value decodes, the record count is unchanged and every key stays in
/// place.
pub proof fn lemma_translate_v0_count_preserved(s: Seq<(u64, Seq<u8>)>)
    requires
        forall|i: int| 0 <= i < s.len() ==> spec_decode_v0(#[trigger] s[i].1) is Some,
    ensures
        spec_translate_v0(s).len() == s.len(),
        forall|i: int| 0 <= i < s.len() ==> spec_translate_v0(s)[i].0 == s[i].0,
    decreases s.len(),
{
    if s.len() > 0 {
        let prefix = s.drop_last();
        assert(forall|i: int| 0 <= i < prefix.len() ==> prefix[i] == s[i]);
        lemma_translate_v0_count_preserved(prefix);
        assert(spec_decode_v0(s[s.len() - 1].1) is Some);
    }
}

/// Count preservation under the intermediate-to-newest step.
pub proof fn lemma_translate_v1_count_preserved(s: Seq<(u64, Seq<u8>)>)
    requires
        forall|i: int| 0 <= i < s.len() ==> spec_decode_v1(#[trigger] s[i].1) is Some,
    ensures
        spec_translate_v1(s).len() == s.len(),
        forall|i: int| 0 <= i < s.len() ==> spec_translate_v1(s)[i].0 == s[i].0,
    decreases s.len(),
{
    if s.len() > 0 {
        let prefix = s.drop_last();
        assert(forall|i: int| 0 <= i < prefix.len() ==> prefix[i] == s[i]);
        lemma_translate_v1_count_preserved(prefix);
        assert(spec_decode_v1(s[s.len() - 1].1) is Some);
    }
}

} // verus!
