//! This machine's own mesh record.

use vstd::prelude::*;

use super::membership::{MAX_RECORD_VERSION, Peer, PeerStatus, next_version};
use crate::config::name::{NameError, validate_name};
use crate::order::{Duplicate, Same, same_text};

verus! {

/// The record this machine gossips about itself: the name it announces,
/// versioned like a [`Peer`] so a rename outranks every copy the mesh holds.
/// Named after the short hostname until renamed.
#[derive(PartialEq, Eq, Debug)]
pub struct Machine {
    pub name: String,
    pub version: u64,
}

/// A machine's own record: its name and version.
#[verifier::ext_equal]
pub struct MachineView {
    pub name: Seq<char>,
    pub version: nat,
}

impl View for Machine {
    type V = MachineView;

    open spec fn view(&self) -> MachineView {
        MachineView { name: self.name@, version: self.version as nat }
    }
}

impl Duplicate for Machine {
    fn duplicate(&self) -> (copy: Self) {
        Machine { name: self.name.clone(), version: self.version }
    }
}

impl Same for Machine {
    fn same(&self, other: &Self) -> (same: bool) {
        self.version == other.version && self.name.same(&other.name)
    }
}

/// Why a machine cannot be renamed.
#[derive(PartialEq, Eq, Debug)]
pub enum RenameError {
    /// The new name is not usable.
    Name(NameError),
    /// This machine's record is at the version ceiling.
    Corrupted { version: u64 },
}

/// The record gossiped for a machine.
pub open spec fn own_record(machine: MachineView) -> super::membership::Record {
    super::membership::Record { version: machine.version, payload: Some(machine.name) }
}

/// The version a copy of our record asks for: past it where it carries another
/// name, its own otherwise.
pub open spec fn outranking_version(
    machine: MachineView,
    copy: super::membership::Record,
) -> nat {
    if copy.payload is Some && copy.payload->Some_0 != machine.name {
        copy.version + 1
    } else {
        copy.version
    }
}

/// The machine after it has seen a copy of its record: the same name, at the
/// highest version asked for, below the ceiling.
pub open spec fn observed(machine: MachineView, copy: super::membership::Record) -> MachineView {
    let asked = outranking_version(machine, copy);
    let high = if machine.version < asked {
        asked
    } else {
        machine.version
    };
    MachineView {
        name: machine.name,
        version: if high < MAX_RECORD_VERSION {
            high
        } else {
            (MAX_RECORD_VERSION - 1) as nat
        },
    }
}

/// The characters before the first dot.
pub open spec fn label_len(name: Seq<char>) -> nat
    decreases name.len(),
{
    if name.len() == 0 || name[0] == '.' {
        0
    } else {
        1 + label_len(name.skip(1))
    }
}

/// The first label of a hostname, where it has several.
pub open spec fn first_label(name: Seq<char>) -> Seq<char> {
    let n = label_len(name);
    if 0 < n < name.len() {
        name.take(n as int)
    } else {
        name
    }
}

/// The name a host gives its machine: its first label, or a placeholder where
/// the mesh would refuse that.
pub open spec fn machine_name(hostname: Seq<char>) -> Seq<char> {
    if crate::config::name::valid_name(first_label(hostname)) {
        first_label(hostname)
    } else {
        "[invalid hostname]"@
    }
}

/// [`gethostname::gethostname`]: the host's name, malformed parts replaced. It
/// is whatever the machine says, so nothing is claimed of it.
#[verifier::external_body]
fn hostname() -> String {
    gethostname::gethostname().to_string_lossy().into_owned()
}

/// The first label of the hostname (macOS reports `name.local`), or a
/// placeholder when the host carries a name the mesh would refuse.
pub fn short_hostname(hostname: String) -> (name: String)
    ensures
        name@ == machine_name(hostname@),
{
    let mut label: usize = 0;
    let total: usize = hostname.as_str().unicode_len();
    assert(hostname@.skip(0) =~= hostname@);
    while label < total && hostname.as_str().get_char(label) != '.'
        invariant
            label <= total,
            total == hostname@.len(),
            label_len(hostname@) == label + label_len(hostname@.skip(label as int)),
        decreases total - label,
    {
        assert(hostname@.skip(label as int).skip(1) =~= hostname@.skip(label + 1));
        label = label + 1;
    }
    assert(label_len(hostname@) == label);
    let short = if 0 < label && label < total {
        hostname.as_str().substring_char(0, label).to_owned()
    } else {
        hostname
    };
    match validate_name("machine", short.as_str()) {
        Ok(()) => short,
        Err(_) => "[invalid hostname]".to_owned(),
    }
}

impl Default for Machine {
    /// A machine that was never renamed, under its host's name.
    fn default() -> (machine: Self)
        ensures
            machine@.version == 0,
            exists|host: Seq<char>| machine@.name == #[trigger] machine_name(host),
    {
        let host = hostname();
        let ghost h = host@;
        let name = short_hostname(host);
        assert(name@ == machine_name(h));
        Machine { name, version: 0 }
    }
}

impl Machine {
    /// Changes the name; the bumped version propagates it through the gossip.
    /// A same-name rename changes nothing.
    pub fn rename(&mut self, name: String) -> (r: Result<(), RenameError>)
        ensures
            match r {
                Ok(()) => {
                    &&& crate::config::name::valid_name(name@)
                    &&& name@ == old(self)@.name ==> final(self)@ == old(self)@
                    &&& name@ != old(self)@.name ==> {
                        &&& old(self)@.version + 1 < MAX_RECORD_VERSION
                        &&& final(self)@ == MachineView {
                            name: name@,
                            version: old(self)@.version + 1,
                        }
                    }
                },
                Err(RenameError::Name(e)) => {
                    &&& crate::config::name::name_fault(name@) == Some(e.fault)
                    &&& e.kind@ == "machine"@
                    &&& final(self)@ == old(self)@
                },
                Err(RenameError::Corrupted { version }) => {
                    &&& crate::config::name::valid_name(name@)
                    &&& name@ != old(self)@.name
                    &&& version == old(self)@.version
                    &&& version + 1 >= MAX_RECORD_VERSION
                    &&& final(self)@ == old(self)@
                },
            },
    {
        match validate_name("machine", name.as_str()) {
            Ok(()) => {},
            Err(e) => {
                return Err(RenameError::Name(e));
            },
        }
        if !same_text(name.as_str(), self.name.as_str()) {
            match next_version(self.version) {
                Ok(version) => {
                    self.version = version;
                    self.name = name;
                },
                Err(version) => {
                    return Err(RenameError::Corrupted { version });
                },
            }
        }
        Ok(())
    }

    /// The record gossiped for this machine.
    pub fn record(&self) -> (record: Peer)
        ensures
            record@ == own_record(self@),
    {
        Peer { version: self.version, status: PeerStatus::Alive { name: self.name.clone() } }
    }

    /// Absorbs a copy of our record gossiped back by a peer. Peers bump their
    /// copies on their own (removal, re-pairing), so our version tracks the
    /// highest seen. Our name is the authority: a copy under another name is
    /// outranked outright, so the mesh converges on ours. A tombstone is only
    /// matched, not outranked here; a later rename still bumps past it (an
    /// accepted risk: renaming is as trusted as the machines themselves).
    ///
    /// Clamped below [`MAX_RECORD_VERSION`]: a peer must not be able to park us
    /// on the ceiling, where renames fail and every machine discards our
    /// record.
    pub fn observe(&mut self, copy: &Peer)
        requires
            copy@.version < u64::MAX,
        ensures
            final(self)@ == observed(old(self)@, copy@),
    {
        let outranking: u64 = match copy.name() {
            Some(name) => if same_text(name, self.name.as_str()) {
                copy.version
            } else {
                copy.version + 1
            },
            None => copy.version,
        };
        let high: u64 = if self.version < outranking {
            outranking
        } else {
            self.version
        };
        self.version = if high < MAX_RECORD_VERSION {
            high
        } else {
            MAX_RECORD_VERSION - 1
        };
    }
}

/// A copy of our record under another name is outranked by ours once seen,
/// unless it sits right below the ceiling.
pub proof fn own_name_wins(machine: MachineView, copy: super::membership::Record)
    requires
        copy.payload is Some,
        copy.payload->Some_0 != machine.name,
        copy.version + 1 < MAX_RECORD_VERSION,
    ensures
        super::membership::outranks(own_record(observed(machine, copy)), copy),
{
}

/// A removed machine cannot undo its removal: having seen its tombstone, its
/// record only outranks the tombstone where it already did.
pub proof fn own_tombstone_stands(machine: MachineView, copy: super::membership::Record)
    requires
        copy.payload is None,
        machine.version <= copy.version,
    ensures
        !super::membership::outranks(own_record(observed(machine, copy)), copy),
{
}

/// What a machine gossips about itself stays below the ceiling whatever it is
/// told.
pub proof fn own_record_stays_gossipable(machine: MachineView, copy: super::membership::Record)
    ensures
        own_record(observed(machine, copy)).version < MAX_RECORD_VERSION,
{
}

/// A machine keeps its name whatever it is told, and takes the highest version
/// it hears of: one past a copy under another name. It never goes back, and
/// never reaches the ceiling.
pub proof fn copies_raise_the_version(machine: MachineView, copy: super::membership::Record)
    requires
        machine.version < MAX_RECORD_VERSION,
        copy.version < MAX_RECORD_VERSION,
    ensures
        observed(machine, copy).name == machine.name,
        observed(machine, copy).version >= machine.version,
        observed(machine, copy).version >= copy.version,
        observed(machine, copy).version < MAX_RECORD_VERSION,
        copy.payload is Some && copy.payload->Some_0 != machine.name && copy.version + 1
            < MAX_RECORD_VERSION ==> observed(machine, copy).version > copy.version,
        copy.payload is None || copy.payload == Some(machine.name) ==> observed(
            machine,
            copy,
        ).version == machine.version || observed(machine, copy).version == copy.version,
        observed(machine, copy).version <= machine.version || observed(machine, copy).version
            <= copy.version + 1,
{
}

/// What a machine gossips of itself is its name, at its version.
pub proof fn own_records_say_the_name(machine: MachineView)
    ensures
        own_record(machine).payload == Some(machine.name),
        own_record(machine).version == machine.version,
{
}

/// A machine is named after its host up to the first dot. A host without a dot,
/// or that starts with one, gives its whole name, and one that no machine can be
/// named after gives the placeholder.
pub proof fn machines_take_the_first_label(label: Seq<char>, rest: Seq<char>)
    requires
        label.len() > 0,
        forall|i: int| 0 <= i < label.len() ==> #[trigger] label[i] != '.',
    ensures
        crate::config::name::valid_name(label) ==> machine_name(label) == label && machine_name(
            label + (seq!['.'] + rest),
        ) == label,
        !crate::config::name::valid_name(label) ==> machine_name(label) == "[invalid hostname]"@
            && machine_name(label + (seq!['.'] + rest)) == "[invalid hostname]"@,
        crate::config::name::valid_name(seq!['.'] + rest) ==> machine_name(seq!['.'] + rest)
            == seq!['.'] + rest,
{
    lemma_label_len(label, Seq::empty());
    assert(label + Seq::<char>::empty() =~= label);
    lemma_label_len(label, seq!['.'] + rest);
    assert((label + (seq!['.'] + rest)).take(label.len() as int) =~= label);
}

proof fn lemma_label_len(label: Seq<char>, rest: Seq<char>)
    requires
        forall|i: int| 0 <= i < label.len() ==> #[trigger] label[i] != '.',
        rest.len() == 0 || rest[0] == '.',
    ensures
        label_len(label + rest) == label.len(),
    decreases label.len(),
{
    let whole = label + rest;
    if label.len() > 0 {
        assert(whole[0] == label[0]);
        assert(whole.skip(1) =~= label.skip(1) + rest);
        assert forall|i: int| 0 <= i < label.skip(1).len() implies #[trigger] label.skip(1)[i]
            != '.' by {
            assert(label[i + 1] != '.');
        }
        lemma_label_len(label.skip(1), rest);
    } else {
        assert(whole =~= rest);
    }
}

} // verus!
