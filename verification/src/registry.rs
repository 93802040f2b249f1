//! The device registry: a persisted set of device records, each holding the
//! device identity, an alias and an assigned target firmware. The identity is
//! unique across the store. Records are persisted as three parallel
//! pipe-delimited fields that stay positionally aligned by index; this module
//! holds the in-memory store and its text codec, while reading and writing
//! the backing file — and the single lock that serializes every
//! read-modify-write of it — belong to the caller.

use vstd::prelude::*;

use crate::auth::{spec_key_check, validate_api_key};
use crate::errors::RegistryError;
use crate::headers::Headers;
use crate::text::{lines_of, spec_lines, spec_split, split_on, str_eq};

verus! {

/// The mathematical value of one device record.
pub ghost struct RecordView {
    pub device_id: Seq<char>,
    pub device_alias: Seq<char>,
    pub target_firmware: Seq<char>,
}

/// One registry record: a device identity with its alias and its assigned
/// target firmware. Alias and target firmware default to the sentinel
/// `UNASSIGNED` at creation.
#[derive(Debug)]
pub struct DeviceRecord {
    pub device_id: String,
    pub device_alias: String,
    pub target_firmware: String,
}

impl View for DeviceRecord {
    type V = RecordView;

    open spec fn view(&self) -> RecordView {
        RecordView {
            device_id: self.device_id@,
            device_alias: self.device_alias@,
            target_firmware: self.target_firmware@,
        }
    }
}

/// The views of a sequence of records.
pub open spec fn record_views(s: Seq<DeviceRecord>) -> Seq<RecordView> {
    s.map_values(|r: DeviceRecord| r@)
}

/// The in-memory registry: the record set a mutation reads, modifies and
/// writes back as a whole.
#[derive(Debug)]
pub struct Registry {
    pub records: Vec<DeviceRecord>,
}

impl View for Registry {
    type V = Seq<RecordView>;

    open spec fn view(&self) -> Seq<RecordView> {
        record_views(self.records@)
    }
}

/// Device identities are unique across the record set.
pub open spec fn unique_ids(s: Seq<RecordView>) -> bool {
    forall|i: int, j: int|
        #![trigger s[i].device_id, s[j].device_id]
        0 <= i < j < s.len() ==> s[i].device_id != s[j].device_id
}

/// Whether some record carries identity `id`.
pub open spec fn spec_has(s: Seq<RecordView>, id: Seq<char>) -> bool {
    exists|i: int| 0 <= i < s.len() && s[i].device_id == id
}

/// The index of the first record with identity `id`, or -1 when none has it.
pub open spec fn spec_find(s: Seq<RecordView>, id: Seq<char>) -> int
    decreases s.len(),
{
    if s.len() == 0 {
        -1
    } else if s[0].device_id == id {
        0
    } else {
        let r = spec_find(s.drop_first(), id);
        if r < 0 {
            -1
        } else {
            r + 1
        }
    }
}

/// The record carrying identity `id`.
pub open spec fn record_for(s: Seq<RecordView>, id: Seq<char>) -> RecordView {
    s[spec_find(s, id)]
}

pub proof fn lemma_spec_find(s: Seq<RecordView>, id: Seq<char>)
    ensures
        spec_has(s, id) ==> 0 <= spec_find(s, id) < s.len() && s[spec_find(s, id)].device_id == id
            && (forall|j: int| 0 <= j < spec_find(s, id) ==> s[j].device_id != id),
        !spec_has(s, id) ==> spec_find(s, id) == -1,
    decreases s.len(),
{
    if s.len() > 0 {
        lemma_spec_find(s.drop_first(), id);
        if s[0].device_id == id {
        } else {
            if spec_has(s, id) {
                let w = choose|i: int| 0 <= i < s.len() && s[i].device_id == id;
                assert(s.drop_first()[w - 1] == s[w]);
                assert(spec_has(s.drop_first(), id));
            }
            if spec_has(s.drop_first(), id) {
                let w = choose|i: int|
                    0 <= i < s.drop_first().len() && s.drop_first()[i].device_id == id;
                assert(s[w + 1] == s.drop_first()[w]);
                assert(spec_has(s, id));
            }
            if spec_has(s, id) {
                assert forall|j: int| 0 <= j < spec_find(s, id) implies s[j].device_id != id by {
                    if j > 0 {
                        assert(s[j] == s.drop_first()[j - 1]);
                    }
                }
            }
        }
    }
}

/// A fresh record for `id`: alias and target firmware unassigned.
pub open spec fn unassigned_record(id: Seq<char>) -> RecordView {
    RecordView { device_id: id, device_alias: "UNASSIGNED"@, target_firmware: "UNASSIGNED"@ }
}

/// What registering `id` yields: the set unchanged when a record for `id`
/// exists, else the set with a fresh unassigned record appended.
pub open spec fn spec_register(s: Seq<RecordView>, id: Seq<char>) -> Seq<RecordView> {
    if spec_has(s, id) {
        s
    } else {
        s.push(unassigned_record(id))
    }
}

/// What assigning firmware `fw` to `id` yields: the record for `id` is
/// replaced by one with the target firmware swapped and the alias preserved;
/// the old record is removed and the new one appended.
pub open spec fn spec_assign_firmware(s: Seq<RecordView>, id: Seq<char>, fw: Seq<char>) -> Seq<
    RecordView,
> {
    let i = spec_find(s, id);
    s.remove(i).push(
        RecordView { device_id: id, device_alias: s[i].device_alias, target_firmware: fw },
    )
}

/// What assigning alias `alias` to `id` yields: the record for `id` is
/// replaced by one with the alias swapped and the target firmware preserved;
/// the old record is removed and the new one appended.
pub open spec fn spec_assign_alias(s: Seq<RecordView>, id: Seq<char>, alias: Seq<char>) -> Seq<
    RecordView,
> {
    let i = spec_find(s, id);
    s.remove(i).push(
        RecordView { device_id: id, device_alias: alias, target_firmware: s[i].target_firmware },
    )
}

/// Removing the record at `index` from the store, shifting later records
/// down.
pub fn purge_device_by_index(registry: &mut Registry, index: usize)
    requires
        index < old(registry)@.len(),
    ensures
        final(registry)@ == old(registry)@.remove(index as int),
{
    registry.records.remove(index);
    proof {
        assert(record_views(registry.records@) =~= record_views(old(registry).records@).remove(
            index as int,
        ));
    }
}

impl Registry {
    /// An empty registry.
    pub fn new() -> (r: Registry)
        ensures
            r@ == Seq::<RecordView>::empty(),
            r.wf(),
    {
        let r = Registry { records: Vec::new() };
        proof {
            assert(r@ =~= Seq::<RecordView>::empty());
        }
        r
    }

    /// The registry invariant: device identities are unique.
    pub open spec fn wf(self) -> bool {
        unique_ids(self@)
    }

    /// The index of the first record with identity `id`, if any.
    fn find_index(&self, id: &str) -> (r: Option<usize>)
        ensures
            match r {
                Some(i) => spec_has(self@, id@) && i == spec_find(self@, id@),
                None => !spec_has(self@, id@),
            },
    {
        let n = self.records.len();
        let mut i: usize = 0;
        while i < n
            invariant
                i <= n,
                n == self@.len(),
                forall|j: int| 0 <= j < i ==> self@[j].device_id != id@,
            decreases n - i,
        {
            if str_eq(self.records[i].device_id.as_str(), id) {
                proof {
                    assert(self@[i as int].device_id == id@);
                    lemma_spec_find(self@, id@);
                    let f = spec_find(self@, id@);
                    assert(f == i) by {
                        if f < i {
                            assert(self@[f].device_id != id@);
                        }
                        if f > i {
                            assert(self@[i as int].device_id != id@);
                        }
                    }
                }
                return Some(i);
            }
            i = i + 1;
        }
        proof {
            if spec_has(self@, id@) {
                let w = choose|k: int| 0 <= k < self@.len() && self@[k].device_id == id@;
                assert(self@[w].device_id != id@);
            }
        }
        None
    }

    /// Registers a device: inserts a fresh unassigned record unless one with
    /// this identity already exists, in which case nothing changes.
    /// Idempotent. Returns whether a record was inserted.
    pub fn register(&mut self, id: &str) -> (inserted: bool)
        ensures
            inserted == !spec_has(old(self)@, id@),
            final(self)@ == spec_register(old(self)@, id@),
            old(self).wf() ==> final(self).wf(),
    {
        match self.find_index(id) {
            Some(_) => false,
            None => {
                let ghost before = self@;
                self.records.push(
                    DeviceRecord {
                        device_id: id.to_owned(),
                        device_alias: "UNASSIGNED".to_owned(),
                        target_firmware: "UNASSIGNED".to_owned(),
                    },
                );
                proof {
                    assert(self@ =~= before.push(unassigned_record(id@)));
                    if unique_ids(before) {
                        assert forall|i: int, j: int|
                            0 <= i < j < self@.len() implies #[trigger] self@[i].device_id
                            != #[trigger] self@[j].device_id by {
                            if j < self@.len() - 1 {
                                assert(self@[i] == before[i] && self@[j] == before[j]);
                            } else {
                                assert(self@[i] == before[i]);
                                assert(before[i].device_id != id@);
                            }
                        }
                    }
                }
                true
            },
        }
    }

    /// Assigns a target firmware to a registered device, preserving its
    /// alias. A device that was never registered is not found, and the store
    /// is unchanged.
    pub fn assign_firmware(&mut self, id: &str, firmware: &str) -> (r: Result<(), RegistryError>)
        ensures
            match r {
                Ok(()) => spec_has(old(self)@, id@) && final(self)@ == spec_assign_firmware(
                    old(self)@,
                    id@,
                    firmware@,
                ),
                Err(e) => !spec_has(old(self)@, id@) && e == RegistryError::DeviceNotFound
                    && final(self)@ == old(self)@,
            },
            old(self).wf() ==> final(self).wf(),
    {
        let i = match self.find_index(id) {
            Some(i) => i,
            None => {
                return Err(RegistryError::DeviceNotFound);
            },
        };
        proof {
            lemma_spec_find(old(self)@, id@);
        }
        let updated = DeviceRecord {
            device_id: self.records[i].device_id.clone(),
            device_alias: self.records[i].device_alias.clone(),
            target_firmware: firmware.to_owned(),
        };
        let ghost before = self@;
        purge_device_by_index(self, i);
        self.records.push(updated);
        proof {
            assert(self@ =~= spec_assign_firmware(before, id@, firmware@));
            if unique_ids(before) {
                lemma_replace_unique(before, id@, self@.last());
            }
        }
        Ok(())
    }

    /// Assigns an alias to a registered device, preserving its assigned
    /// target firmware. A device that was never registered is not found, and
    /// the store is unchanged.
    pub fn assign_alias(&mut self, id: &str, alias: &str) -> (r: Result<(), RegistryError>)
        ensures
            match r {
                Ok(()) => spec_has(old(self)@, id@) && final(self)@ == spec_assign_alias(
                    old(self)@,
                    id@,
                    alias@,
                ),
                Err(e) => !spec_has(old(self)@, id@) && e == RegistryError::DeviceNotFound
                    && final(self)@ == old(self)@,
            },
            old(self).wf() ==> final(self).wf(),
    {
        let i = match self.find_index(id) {
            Some(i) => i,
            None => {
                return Err(RegistryError::DeviceNotFound);
            },
        };
        proof {
            lemma_spec_find(old(self)@, id@);
        }
        let updated = DeviceRecord {
            device_id: self.records[i].device_id.clone(),
            device_alias: alias.to_owned(),
            target_firmware: self.records[i].target_firmware.clone(),
        };
        let ghost before = self@;
        purge_device_by_index(self, i);
        self.records.push(updated);
        proof {
            assert(self@ =~= spec_assign_alias(before, id@, alias@));
            if unique_ids(before) {
                lemma_replace_unique(before, id@, self@.last());
            }
        }
        Ok(())
    }
}

/// Replacing the record for `id` by another record carrying `id` keeps
/// identities unique.
proof fn lemma_replace_unique(s: Seq<RecordView>, id: Seq<char>, r: RecordView)
    requires
        unique_ids(s),
        spec_has(s, id),
        r.device_id == id,
    ensures
        unique_ids(s.remove(spec_find(s, id)).push(r)),
{
    lemma_spec_find(s, id);
    let f = spec_find(s, id);
    let t = s.remove(f).push(r);
    assert forall|i: int, j: int|
        0 <= i < j < t.len() implies #[trigger] t[i].device_id != #[trigger] t[j].device_id by {
        if j < t.len() - 1 {
            let si = if i < f {
                i
            } else {
                i + 1
            };
            let sj = if j < f {
                j
            } else {
                j + 1
            };
            assert(t[i] == s[si] && t[j] == s[sj]);
        } else {
            let si = if i < f {
                i
            } else {
                i + 1
            };
            assert(t[i] == s[si]);
            assert(si != f);
            assert(s[si].device_id != id);
        }
    }
}

/// The frame of one replacement: the record for `id` becomes exactly `r`,
/// every other identity keeps its presence and its record, and identities
/// stay unique.
proof fn lemma_replace_frame(s: Seq<RecordView>, id: Seq<char>, r: RecordView)
    requires
        unique_ids(s),
        spec_has(s, id),
        r.device_id == id,
    ensures
        ({
            let t = s.remove(spec_find(s, id)).push(r);
            &&& unique_ids(t)
            &&& spec_has(t, id)
            &&& record_for(t, id) == r
            &&& forall|other: Seq<char>|
                other != id ==> (#[trigger] spec_has(t, other) <==> spec_has(s, other))
            &&& forall|other: Seq<char>|
                other != id && spec_has(s, other) ==> #[trigger] record_for(t, other) == record_for(
                    s,
                    other,
                )
        }),
{
    lemma_spec_find(s, id);
    lemma_replace_unique(s, id, r);
    let f = spec_find(s, id);
    let t = s.remove(f).push(r);
    assert(t[t.len() - 1] == r);
    assert(spec_has(t, id));
    lemma_spec_find(t, id);
    assert(t[spec_find(t, id)].device_id == id);
    assert(spec_find(t, id) == t.len() - 1) by {
        let g = spec_find(t, id);
        if g < t.len() - 1 {
            let si = if g < f {
                g
            } else {
                g + 1
            };
            assert(t[g] == s[si]);
            assert(si != f);
            assert(s[si].device_id != id);
        }
    }
    assert forall|other: Seq<char>| other != id implies (#[trigger] spec_has(t, other) <==> spec_has(
        s,
        other,
    )) by {
        if spec_has(t, other) {
            let w = choose|k: int| 0 <= k < t.len() && t[k].device_id == other;
            assert(w < t.len() - 1);
            let sw = if w < f {
                w
            } else {
                w + 1
            };
            assert(t[w] == s[sw]);
            assert(spec_has(s, other));
        }
        if spec_has(s, other) {
            let w = choose|k: int| 0 <= k < s.len() && s[k].device_id == other;
            assert(w != f);
            let tw = if w < f {
                w
            } else {
                w - 1
            };
            assert(t[tw] == s[w]);
            assert(spec_has(t, other));
        }
    }
    assert forall|other: Seq<char>|
        other != id && spec_has(s, other) implies #[trigger] record_for(t, other) == record_for(
        s,
        other,
    ) by {
        lemma_spec_find(s, other);
        lemma_spec_find(t, other);
        let ws = spec_find(s, other);
        assert(ws != f);
        let tw = if ws < f {
            ws
        } else {
            ws - 1
        };
        assert(t[tw] == s[ws]);
        let wt = spec_find(t, other);
        assert(t[wt].device_id == other);
        assert(wt == tw) by {
            if wt != tw {
                assert(t[wt].device_id != t[tw].device_id);
            }
        }
    }
}

/// Registering an identity twice leaves exactly one record for it: the
/// second call changes nothing, and the resulting set holds one and only one
/// record carrying the identity.
pub proof fn lemma_register_idempotent(s: Seq<RecordView>, id: Seq<char>)
    requires
        unique_ids(s),
    ensures
        ({
            let s1 = spec_register(s, id);
            &&& spec_register(s1, id) == s1
            &&& unique_ids(s1)
            &&& spec_has(s1, id)
            &&& forall|i: int, j: int|
                #![trigger s1[i].device_id, s1[j].device_id]
                0 <= i < s1.len() && 0 <= j < s1.len() && s1[i].device_id == id && s1[j].device_id
                    == id ==> i == j
        }),
{
    let s1 = spec_register(s, id);
    if spec_has(s, id) {
    } else {
        assert(s1[s1.len() - 1] == unassigned_record(id));
        assert(spec_has(s1, id));
        assert forall|i: int, j: int|
            0 <= i < j < s1.len() implies #[trigger] s1[i].device_id != #[trigger] s1[j].device_id by {
            if j < s1.len() - 1 {
                assert(s1[i] == s[i] && s1[j] == s[j]);
            } else {
                assert(s1[i] == s[i]);
                assert(s[i].device_id != id);
            }
        }
    }
    assert forall|i: int, j: int|
        0 <= i < s1.len() && 0 <= j < s1.len() && s1[i].device_id == id && s1[j].device_id == id
        implies i == j by {
        if i < j {
            assert(s1[i].device_id != s1[j].device_id);
        }
        if j < i {
            assert(s1[j].device_id != s1[i].device_id);
        }
    }
}

/// Isolation of assignments to distinct devices: with identities unique and
/// both devices registered, assigning a firmware to one and then an alias to
/// the other succeeds in both steps, and neither update is lost — the final
/// set holds the new firmware with the old alias for the first device and
/// the new alias with the old firmware for the second. Running the two
/// mutations under the store's single lock serializes them into exactly such
/// a sequence, in one order or the other.
pub proof fn lemma_assign_isolation(
    s: Seq<RecordView>,
    id1: Seq<char>,
    fw: Seq<char>,
    id2: Seq<char>,
    alias: Seq<char>,
)
    requires
        unique_ids(s),
        id1 != id2,
        spec_has(s, id1),
        spec_has(s, id2),
    ensures
        spec_has(spec_assign_firmware(s, id1, fw), id2),
        ({
            let s1 = spec_assign_alias(spec_assign_firmware(s, id1, fw), id2, alias);
            &&& unique_ids(s1)
            &&& spec_has(s1, id1) && spec_has(s1, id2)
            &&& record_for(s1, id1) == RecordView {
                device_id: id1,
                device_alias: record_for(s, id1).device_alias,
                target_firmware: fw,
            }
            &&& record_for(s1, id2) == RecordView {
                device_id: id2,
                device_alias: alias,
                target_firmware: record_for(s, id2).target_firmware,
            }
        }),
{
    lemma_spec_find(s, id1);
    let r1 = RecordView {
        device_id: id1,
        device_alias: record_for(s, id1).device_alias,
        target_firmware: fw,
    };
    lemma_replace_frame(s, id1, r1);
    let t = spec_assign_firmware(s, id1, fw);
    assert(t == s.remove(spec_find(s, id1)).push(r1));
    assert(spec_has(t, id2));
    assert(record_for(t, id2) == record_for(s, id2));
    lemma_spec_find(t, id2);
    let r2 = RecordView {
        device_id: id2,
        device_alias: alias,
        target_firmware: record_for(t, id2).target_firmware,
    };
    lemma_replace_frame(t, id2, r2);
    let s1 = spec_assign_alias(t, id2, alias);
    assert(s1 == t.remove(spec_find(t, id2)).push(r2));
    assert(record_for(s1, id1) == record_for(t, id1));
}

/// The three field values of the persisted form, joined with pipes.
pub open spec fn pipe_join(fields: Seq<Seq<char>>) -> Seq<char>
    decreases fields.len(),
{
    if fields.len() == 0 {
        Seq::empty()
    } else if fields.len() == 1 {
        fields[0]
    } else {
        pipe_join(fields.drop_last()) + seq!['|'] + fields.last()
    }
}

/// The identities of a record set, in order.
pub open spec fn ids_of(s: Seq<RecordView>) -> Seq<Seq<char>> {
    s.map_values(|r: RecordView| r.device_id)
}

/// The aliases of a record set, in order.
pub open spec fn aliases_of(s: Seq<RecordView>) -> Seq<Seq<char>> {
    s.map_values(|r: RecordView| r.device_alias)
}

/// The target firmwares of a record set, in order.
pub open spec fn firmwares_of(s: Seq<RecordView>) -> Seq<Seq<char>> {
    s.map_values(|r: RecordView| r.target_firmware)
}

/// Bundles the record set into one record whose fields are the pipe-joined
/// field lists, the form the store is persisted in. The three lists stay
/// positionally aligned by index.
pub fn bundle_devices(devices: Vec<DeviceRecord>) -> (r: DeviceRecord)
    requires
        devices@.len() >= 1,
    ensures
        r@.device_id == pipe_join(ids_of(record_views(devices@))),
        r@.device_alias == pipe_join(aliases_of(record_views(devices@))),
        r@.target_firmware == pipe_join(firmwares_of(record_views(devices@))),
{
    let ghost rv = record_views(devices@);
    let mut ids = String::new();
    let mut aliases = String::new();
    let mut firmwares = String::new();
    let n = devices.len();
    let mut i: usize = 0;
    while i < n
        invariant
            i <= n,
            n == devices@.len(),
            rv == record_views(devices@),
            ids@ == pipe_join(ids_of(rv.take(i as int))),
            aliases@ == pipe_join(aliases_of(rv.take(i as int))),
            firmwares@ == pipe_join(firmwares_of(rv.take(i as int))),
        decreases n - i,
    {
        if i > 0 {
            crate::text::push_char(&mut ids, '|');
            crate::text::push_char(&mut aliases, '|');
            crate::text::push_char(&mut firmwares, '|');
        }
        ids.append(devices[i].device_id.as_str());
        aliases.append(devices[i].device_alias.as_str());
        firmwares.append(devices[i].target_firmware.as_str());
        proof {
            assert(ids_of(rv.take(i + 1)).drop_last() =~= ids_of(rv.take(i as int)));
            assert(aliases_of(rv.take(i + 1)).drop_last() =~= aliases_of(rv.take(i as int)));
            assert(firmwares_of(rv.take(i + 1)).drop_last() =~= firmwares_of(rv.take(i as int)));
            assert(ids@ =~= pipe_join(ids_of(rv.take(i + 1))));
            assert(aliases@ =~= pipe_join(aliases_of(rv.take(i + 1))));
            assert(firmwares@ =~= pipe_join(firmwares_of(rv.take(i + 1))));
        }
        i = i + 1;
    }
    proof {
        assert(rv.take(n as int) =~= rv);
    }
    DeviceRecord { device_id: ids, device_alias: aliases, target_firmware: firmwares }
}

/// The persisted text of a record set: three lines, one per field list, each
/// `name = '<pipe-delimited values>'`.
pub open spec fn spec_encode_registry(s: Seq<RecordView>) -> Seq<char> {
    "device_id = '"@ + pipe_join(ids_of(s)) + "'\ndevice_alias = '"@ + pipe_join(aliases_of(s))
        + "'\ntarget_firmware = '"@ + pipe_join(firmwares_of(s)) + "'"@
}

/// Encodes the registry into its persisted text. The store never persists an
/// empty set: a mutation on an empty store either inserts first or fails.
pub fn encode_registry(registry: Registry) -> (r: String)
    requires
        registry@.len() >= 1,
    ensures
        r@ == spec_encode_registry(registry@),
{
    let ghost rv = registry@;
    let bundled = bundle_devices(registry.records);
    let mut out = "device_id = '".to_owned();
    out.append(bundled.device_id.as_str());
    out.append("'\ndevice_alias = '");
    out.append(bundled.device_alias.as_str());
    out.append("'\ntarget_firmware = '");
    out.append(bundled.target_firmware.as_str());
    out.append("'");
    out
}

/// The value of a persisted field line `prefix<value>'`: the text between
/// the exact prefix and a closing quote.
pub open spec fn spec_field_line(line: Seq<char>, prefix: Seq<char>) -> Option<Seq<char>> {
    if line.len() >= prefix.len() + 1 && line.take(prefix.len() as int) == prefix && line.last()
        == '\'' {
        Some(line.subrange(prefix.len() as int, line.len() - 1))
    } else {
        None
    }
}

fn parse_field_line(line: &str, prefix: &str) -> (r: Option<String>)
    ensures
        match r {
            Some(v) => spec_field_line(line@, prefix@) == Some(v@),
            None => spec_field_line(line@, prefix@) is None,
        },
{
    let n = line.unicode_len();
    let plen = prefix.unicode_len();
    if n < plen || n == plen {
        return None;
    }
    let head = line.substring_char(0, plen);
    if !str_eq(head, prefix) {
        return None;
    }
    if line.get_char(n - 1) != '\'' {
        return None;
    }
    proof {
        assert(line@.take(plen as int) =~= line@.subrange(0, plen as int));
    }
    Some(line.substring_char(plen, n - 1).to_owned())
}

/// What decoding the persisted registry text yields: the records rebuilt
/// from the three field lines, index-aligned; nothing when the text is not
/// three well-formed field lines of equally many values.
pub open spec fn spec_decode_registry(file: Seq<char>) -> Option<Seq<RecordView>> {
    let lines = spec_lines(file);
    if lines.len() == 3 {
        match (
            spec_field_line(lines[0], "device_id = '"@),
            spec_field_line(lines[1], "device_alias = '"@),
            spec_field_line(lines[2], "target_firmware = '"@),
        ) {
            (Some(v0), Some(v1), Some(v2)) => {
                let ids = spec_split(v0, '|');
                let aliases = spec_split(v1, '|');
                let firmwares = spec_split(v2, '|');
                if ids.len() == aliases.len() && ids.len() == firmwares.len() {
                    Some(
                        Seq::new(
                            ids.len(),
                            |i: int|
                                RecordView {
                                    device_id: ids[i],
                                    device_alias: aliases[i],
                                    target_firmware: firmwares[i],
                                },
                        ),
                    )
                } else {
                    None
                }
            },
            _ => None,
        }
    } else {
        None
    }
}

/// Decodes the persisted registry text back into the record set. A text
/// that does not hold the three aligned field lines leaves the store
/// unreadable — an error to the caller, never a crash.
pub fn decode_registry(file: &str) -> (r: Result<Registry, RegistryError>)
    ensures
        match r {
            Ok(reg) => spec_decode_registry(file@) == Some(reg@),
            Err(e) => spec_decode_registry(file@) is None && e == RegistryError::StoreUnreadable,
        },
{
    let lines = lines_of(file);
    let ghost lv = crate::text::views(lines@);
    if lines.len() != 3 {
        return Err(RegistryError::StoreUnreadable);
    }
    let v0 = match parse_field_line(lines[0].as_str(), "device_id = '") {
        Some(v) => v,
        None => {
            return Err(RegistryError::StoreUnreadable);
        },
    };
    let v1 = match parse_field_line(lines[1].as_str(), "device_alias = '") {
        Some(v) => v,
        None => {
            return Err(RegistryError::StoreUnreadable);
        },
    };
    let v2 = match parse_field_line(lines[2].as_str(), "target_firmware = '") {
        Some(v) => v,
        None => {
            return Err(RegistryError::StoreUnreadable);
        },
    };
    let ids = split_on(v0.as_str(), '|');
    let aliases = split_on(v1.as_str(), '|');
    let firmwares = split_on(v2.as_str(), '|');
    if ids.len() != aliases.len() || ids.len() != firmwares.len() {
        return Err(RegistryError::StoreUnreadable);
    }
    let ghost target = spec_decode_registry(file@).unwrap();
    let n = ids.len();
    let mut records: Vec<DeviceRecord> = Vec::new();
    let mut i: usize = 0;
    while i < n
        invariant
            i <= n,
            n == ids@.len(),
            n == aliases@.len(),
            n == firmwares@.len(),
            n == target.len(),
            forall|j: int|
                0 <= j < n ==> target[j] == (RecordView {
                    device_id: ids@[j]@,
                    device_alias: aliases@[j]@,
                    target_firmware: firmwares@[j]@,
                }),
            record_views(records@).len() == i,
            forall|j: int| 0 <= j < i ==> record_views(records@)[j] == target[j],
        decreases n - i,
    {
        records.push(
            DeviceRecord {
                device_id: ids[i].clone(),
                device_alias: aliases[i].clone(),
                target_firmware: firmwares[i].clone(),
            },
        );
        i = i + 1;
    }
    let reg = Registry { records };
    proof {
        assert(reg@ =~= target);
    }
    Ok(reg)
}

/// The outcome of one management operation, as the response maps it: a bad
/// key is unauthorized; a missing management header or an already-registered
/// device changes nothing and still acknowledges; an assignment to an
/// unregistered device reports the device not found.
#[derive(Clone, Copy, PartialEq, Eq, Structural, Debug)]
pub enum ManagementResult {
    Unauthorized,
    Applied,
    NoChange,
    DeviceNotFound,
}

/// What the register flow yields from the headers, the key file text and the
/// record set: key check first, then a no-op without the `esp-device-id`
/// header, then idempotent insertion.
pub open spec fn spec_register_flow(h: Headers, keys_file: Seq<char>, s: Seq<RecordView>) -> (
    Seq<RecordView>,
    ManagementResult,
) {
    if !spec_key_check(h, keys_file) {
        (s, ManagementResult::Unauthorized)
    } else {
        match h.lookup("esp-device-id"@) {
            None => (s, ManagementResult::NoChange),
            Some(id) => if spec_has(s, id) {
                (s, ManagementResult::NoChange)
            } else {
                (s.push(unassigned_record(id)), ManagementResult::Applied)
            },
        }
    }
}

/// The register operation: validates the key, then registers the device
/// named by the `esp-device-id` header. A request without that header
/// changes nothing and is still acknowledged.
pub fn register_device(headers: &Headers, keys_file: &str, registry: &mut Registry) -> (r:
    ManagementResult)
    ensures
        (final(registry)@, r) == spec_register_flow(*headers, keys_file@, old(registry)@),
        old(registry).wf() ==> final(registry).wf(),
{
    if !validate_api_key(headers, keys_file) {
        return ManagementResult::Unauthorized;
    }
    let id = match headers.get("esp-device-id") {
        Some(v) => v.clone(),
        None => {
            return ManagementResult::NoChange;
        },
    };
    if registry.register(id.as_str()) {
        ManagementResult::Applied
    } else {
        ManagementResult::NoChange
    }
}

/// What the assign-firmware flow yields: key check first, then a no-op
/// without both management headers, then the assignment, which fails on an
/// unregistered device.
pub open spec fn spec_assign_firmware_flow(
    h: Headers,
    keys_file: Seq<char>,
    s: Seq<RecordView>,
) -> (Seq<RecordView>, ManagementResult) {
    if !spec_key_check(h, keys_file) {
        (s, ManagementResult::Unauthorized)
    } else {
        match (h.lookup("esp-device-id"@), h.lookup("esp-target-firmware"@)) {
            (Some(id), Some(fw)) => if spec_has(s, id) {
                (spec_assign_firmware(s, id, fw), ManagementResult::Applied)
            } else {
                (s, ManagementResult::DeviceNotFound)
            },
            _ => (s, ManagementResult::NoChange),
        }
    }
}

/// The assign-firmware operation: validates the key, then assigns the
/// firmware named by `esp-target-firmware` to the device named by
/// `esp-device-id`, preserving the device's alias.
pub fn assign_firmware(headers: &Headers, keys_file: &str, registry: &mut Registry) -> (r:
    ManagementResult)
    ensures
        (final(registry)@, r) == spec_assign_firmware_flow(*headers, keys_file@, old(registry)@),
        old(registry).wf() ==> final(registry).wf(),
{
    if !validate_api_key(headers, keys_file) {
        return ManagementResult::Unauthorized;
    }
    let id = match headers.get("esp-device-id") {
        Some(v) => v.clone(),
        None => {
            return ManagementResult::NoChange;
        },
    };
    let fw = match headers.get("esp-target-firmware") {
        Some(v) => v.clone(),
        None => {
            return ManagementResult::NoChange;
        },
    };
    match registry.assign_firmware(id.as_str(), fw.as_str()) {
        Ok(()) => ManagementResult::Applied,
        Err(_) => ManagementResult::DeviceNotFound,
    }
}

/// What the assign-alias flow yields: like the firmware flow, with the
/// `esp-alias` header, preserving the device's assigned firmware.
pub open spec fn spec_assign_alias_flow(h: Headers, keys_file: Seq<char>, s: Seq<RecordView>) -> (
    Seq<RecordView>,
    ManagementResult,
) {
    if !spec_key_check(h, keys_file) {
        (s, ManagementResult::Unauthorized)
    } else {
        match (h.lookup("esp-device-id"@), h.lookup("esp-alias"@)) {
            (Some(id), Some(alias)) => if spec_has(s, id) {
                (spec_assign_alias(s, id, alias), ManagementResult::Applied)
            } else {
                (s, ManagementResult::DeviceNotFound)
            },
            _ => (s, ManagementResult::NoChange),
        }
    }
}

/// The assign-alias operation: validates the key, then assigns the alias
/// named by `esp-alias` to the device named by `esp-device-id`, preserving
/// the device's assigned target firmware.
pub fn assign_alias(headers: &Headers, keys_file: &str, registry: &mut Registry) -> (r:
    ManagementResult)
    ensures
        (final(registry)@, r) == spec_assign_alias_flow(*headers, keys_file@, old(registry)@),
        old(registry).wf() ==> final(registry).wf(),
{
    if !validate_api_key(headers, keys_file) {
        return ManagementResult::Unauthorized;
    }
    let id = match headers.get("esp-device-id") {
        Some(v) => v.clone(),
        None => {
            return ManagementResult::NoChange;
        },
    };
    let alias = match headers.get("esp-alias") {
        Some(v) => v.clone(),
        None => {
            return ManagementResult::NoChange;
        },
    };
    match registry.assign_alias(id.as_str(), alias.as_str()) {
        Ok(()) => ManagementResult::Applied,
        Err(_) => ManagementResult::DeviceNotFound,
    }
}

} // verus!
