//! The install orchestration: the configuration record, the pre-write
//! source checks, the postprocessing plan, and the install state
//! machine. A driver outside the library performs each action (device
//! I/O, image write, mounting) and feeds the outcome back into the
//! machine; every decision is made here.

use vstd::prelude::*;
use crate::errors::{ErrorKind, InstallError};
use crate::hash::IgnitionHash;

verus! {

/// The configuration the install consumes, read-only. Presence of any
/// postprocessing field implies the boot partition must be mounted;
/// absence of all means postprocessing is skipped entirely.
pub struct InstallConfig {
    /// Path of the target block device.
    pub device: String,
    /// Proceed with a warning when a required signature is missing.
    pub insecure: bool,
    /// Keep the partition table on failure, for forensics.
    pub preserve_on_error: bool,
    /// An Ignition config is to be written (the bytes live with the
    /// driver; the library only decides).
    pub has_ignition: bool,
    /// Digest the Ignition config must match, if any.
    pub ignition_hash: Option<IgnitionHash>,
    /// First-boot kernel arguments to append, if any.
    pub firstboot_kargs: Option<String>,
    /// Kernel arguments to append to each BLS entry, if any.
    pub append_kargs: Option<Vec<String>>,
    /// Kernel arguments to delete from each BLS entry, if any.
    pub delete_kargs: Option<Vec<String>>,
    /// Platform ID to write in place of the default, if any.
    pub platform: Option<String>,
    /// Directory to copy network configuration from, if any.
    pub network_config: Option<String>,
}

/// Any postprocessing field at all is set.
pub open spec fn needs_postprocessing(c: &InstallConfig) -> bool {
    c.has_ignition || c.firstboot_kargs is Some || c.append_kargs is Some || c.delete_kargs
        is Some || c.platform is Some || c.network_config is Some
}

impl InstallConfig {
    /// Must the boot partition be mounted and postprocessed?
    pub fn any_postprocessing(&self) -> (r: bool)
        ensures
            r == needs_postprocessing(self),
    {
        self.has_ignition || self.firstboot_kargs.is_some() || self.append_kargs.is_some()
            || self.delete_kargs.is_some() || self.platform.is_some()
            || self.network_config.is_some()
    }
}

/// The independent postprocessing steps, in their fixed order.
#[derive(PartialEq, Eq, Structural, Clone, Copy, Debug)]
pub enum PostprocessStep {
    WriteIgnition,
    WriteFirstbootKargs,
    EditKargs,
    WritePlatform,
    CopyNetworkConfig,
}

/// The steps a configuration asks for: each present exactly when its
/// field is set, in the fixed order. The append and delete kernel
/// argument edits run together as one step.
pub open spec fn postprocess_plan_spec(c: &InstallConfig) -> Seq<PostprocessStep> {
    (if c.has_ignition {
        seq![PostprocessStep::WriteIgnition]
    } else {
        Seq::empty()
    }) + (if c.firstboot_kargs is Some {
        seq![PostprocessStep::WriteFirstbootKargs]
    } else {
        Seq::empty()
    }) + (if c.append_kargs is Some || c.delete_kargs is Some {
        seq![PostprocessStep::EditKargs]
    } else {
        Seq::empty()
    }) + (if c.platform is Some {
        seq![PostprocessStep::WritePlatform]
    } else {
        Seq::empty()
    }) + (if c.network_config is Some {
        seq![PostprocessStep::CopyNetworkConfig]
    } else {
        Seq::empty()
    })
}

/// The postprocessing steps this configuration asks for, in order.
pub fn postprocess_plan(c: &InstallConfig) -> (r: Vec<PostprocessStep>)
    ensures
        r@ == postprocess_plan_spec(c),
{
    let mut v: Vec<PostprocessStep> = Vec::new();
    if c.has_ignition {
        v.push(PostprocessStep::WriteIgnition);
    }
    if c.firstboot_kargs.is_some() {
        v.push(PostprocessStep::WriteFirstbootKargs);
    }
    if c.append_kargs.is_some() || c.delete_kargs.is_some() {
        v.push(PostprocessStep::EditKargs);
    }
    if c.platform.is_some() {
        v.push(PostprocessStep::WritePlatform);
    }
    if c.network_config.is_some() {
        v.push(PostprocessStep::CopyNetworkConfig);
    }
    proof {
        assert(v@ =~= postprocess_plan_spec(c));
    }
    v
}

/// Check the resolved image source before anything is written: exactly
/// one artifact, and the signature policy. Returns whether to warn that
/// verification is being skipped.
pub fn check_source(
    artifact_count: usize,
    has_signature: bool,
    require_signature: bool,
    insecure: bool,
) -> (r: Result<bool, InstallError>)
    ensures
        artifact_count == 0 ==> (r matches Err(e) && e.kind matches ErrorKind::NoArtifactFound),
        artifact_count > 1 ==> (r matches Err(e) && e.kind matches ErrorKind::AmbiguousArtifact),
        artifact_count == 1 && !has_signature && require_signature && !insecure ==> (
        r matches Err(e) && e.kind matches ErrorKind::MissingSignature),
        artifact_count == 1 && !has_signature && require_signature && insecure ==> r
            == Result::<bool, InstallError>::Ok(true),
        artifact_count == 1 && (has_signature || !require_signature) ==> r == Result::<
            bool,
            InstallError,
        >::Ok(false),
{
    if artifact_count == 0 {
        return Err(InstallError::new(ErrorKind::NoArtifactFound));
    }
    if artifact_count > 1 {
        return Err(InstallError::new(ErrorKind::AmbiguousArtifact));
    }
    if !has_signature && require_signature {
        if insecure {
            return Ok(true);
        }
        return Err(InstallError::new(ErrorKind::MissingSignature));
    }
    Ok(false)
}

/// Check an Ignition config's bytes against the configured digest, if
/// one was supplied, before anything is written to the mount.
pub fn check_ignition_config(hash: &Option<IgnitionHash>, data: &[u8]) -> (r: Result<
    (),
    InstallError,
>)
    ensures
        ({
            match hash {
                None => r is Ok,
                Some(h) => (r is Ok <==> crate::hash::sha512_of(data@) == h.digest_view()) && (
                r matches Err(e) ==> e.kind matches ErrorKind::HashMismatch { .. }),
            }
        }),
{
    match hash {
        None => Ok(()),
        Some(h) => h.validate(data),
    }
}

/// One directory entry as the driver found it: its file name and
/// whether it is a regular file.
pub struct DirEntryInfo {
    pub name: String,
    pub is_file: bool,
}

/// The names the network-config copy takes: every regular file, in
/// directory order; subdirectories are ignored, names are preserved.
pub open spec fn copy_list_spec(es: Seq<DirEntryInfo>) -> Seq<Seq<char>>
    decreases es.len(),
{
    if es.len() == 0 {
        Seq::empty()
    } else {
        (if es[0].is_file {
            seq![es[0].name@]
        } else {
            Seq::empty()
        }) + copy_list_spec(es.drop_first())
    }
}

proof fn lemma_copy_list_snoc(es: Seq<DirEntryInfo>, e: DirEntryInfo)
    ensures
        copy_list_spec(es.push(e)) == copy_list_spec(es) + (if e.is_file {
            seq![e.name@]
        } else {
            Seq::<Seq<char>>::empty()
        }),
    decreases es.len(),
{
    let p = es.push(e);
    let piece = if e.is_file {
        seq![e.name@]
    } else {
        Seq::<Seq<char>>::empty()
    };
    if es.len() == 0 {
        assert(p[0] == e);
        assert(p.drop_first() =~= Seq::<DirEntryInfo>::empty());
        assert(copy_list_spec(Seq::<DirEntryInfo>::empty()) == Seq::<Seq<char>>::empty());
        assert(piece + Seq::<Seq<char>>::empty() =~= piece);
        assert(copy_list_spec(es) + piece =~= piece);
    } else {
        assert(p[0] == es[0]);
        assert(p.drop_first() =~= es.drop_first().push(e));
        lemma_copy_list_snoc(es.drop_first(), e);
        let head = if es[0].is_file {
            seq![es[0].name@]
        } else {
            Seq::<Seq<char>>::empty()
        };
        assert(head + (copy_list_spec(es.drop_first()) + piece) =~= (head + copy_list_spec(
            es.drop_first(),
        )) + piece);
    }
}

/// Which entries of the network-config source directory are copied:
/// the regular files, under their own names.
pub fn plan_network_config_copy(entries: &Vec<DirEntryInfo>) -> (r: Vec<String>)
    ensures
        r.deep_view() == copy_list_spec(entries@),
{
    let mut out: Vec<String> = Vec::new();
    let mut i: usize = 0;
    proof {
        assert(entries@.take(0) =~= Seq::<DirEntryInfo>::empty());
        assert(out.deep_view() =~= copy_list_spec(entries@.take(0)));
    }
    while i < entries.len()
        invariant
            i <= entries@.len(),
            out.deep_view() == copy_list_spec(entries@.take(i as int)),
        decreases entries@.len() - i,
    {
        let ghost prev = out.deep_view();
        if entries[i].is_file {
            let mut name = String::new();
            name.append(entries[i].name.as_str());
            proof {
                assert(Seq::<char>::empty() + entries@[i as int].name@ =~= entries@[
                    i as int
                ].name@);
            }
            out.push(name);
            proof {
                assert(out.deep_view() =~= prev.push(entries@[i as int].name@));
            }
        }
        proof {
            lemma_copy_list_snoc(entries@.take(i as int), entries@[i as int]);
            assert(entries@.take(i as int).push(entries@[i as int]) =~= entries@.take(i + 1));
            if entries@[i as int].is_file {
                assert(prev.push(entries@[i as int].name@) =~= prev + seq![
                    entries@[i as int].name@,
                ]);
            } else {
                assert(prev + Seq::<Seq<char>>::empty() =~= prev);
            }
            assert(out.deep_view() =~= copy_list_spec(entries@.take(i + 1)));
        }
        i = i + 1;
    }
    proof {
        assert(entries@.take(entries@.len() as int) =~= entries@);
    }
    out
}

/// The states of the install, in pipeline order, with the recovery edge.
#[derive(PartialEq, Eq, Structural, Clone, Copy, Debug)]
pub enum InstallState {
    Start,
    DeviceAcquired,
    ImageWritten,
    TableReread,
    Settled,
    Postprocessed,
    Recovering,
    Done,
    Failed,
}

/// What the driver must perform in a state. `Finish` asks for nothing:
/// the machine advances on its own.
#[derive(PartialEq, Eq, Structural, Clone, Copy, Debug)]
pub enum InstallAction {
    /// Open the device, assert it is a block device, assert exclusive
    /// access.
    AcquireDevice,
    /// Stream the image onto the device at offset 0.
    WriteImage,
    /// Force the kernel to reread the partition table.
    RereadTable,
    /// Wait for device-node events to settle.
    Settle,
    /// Mount the boot partition and run the postprocessing steps.
    Postprocess,
    /// Zero the start of the device, sync, reread, settle.
    ClearPartitionTable,
    /// Nothing left to perform.
    Finish,
}

/// A state after the device has been acquired but before the install
/// has concluded: from here any failure must route through recovery.
pub open spec fn post_acquisition(s: InstallState) -> bool {
    s == InstallState::DeviceAcquired || s == InstallState::ImageWritten || s
        == InstallState::TableReread || s == InstallState::Settled
}

/// A state in which the install has concluded, one way or the other.
pub open spec fn terminal(s: InstallState) -> bool {
    s == InstallState::Done || s == InstallState::Failed
}

/// The action owed in each state. Recovery wipes the partition table
/// unless the caller opted to preserve it.
pub open spec fn spec_action(s: InstallState, c: &InstallConfig) -> InstallAction {
    match s {
        InstallState::Start => InstallAction::AcquireDevice,
        InstallState::DeviceAcquired => InstallAction::WriteImage,
        InstallState::ImageWritten => InstallAction::RereadTable,
        InstallState::TableReread => InstallAction::Settle,
        InstallState::Settled => if needs_postprocessing(c) {
            InstallAction::Postprocess
        } else {
            InstallAction::Finish
        },
        InstallState::Postprocessed => InstallAction::Finish,
        InstallState::Recovering => if c.preserve_on_error {
            InstallAction::Finish
        } else {
            InstallAction::ClearPartitionTable
        },
        InstallState::Done => InstallAction::Finish,
        InstallState::Failed => InstallAction::Finish,
    }
}

/// The next state, given whether the state's action succeeded. A
/// failure before anything was written is terminal at once; a failure
/// after acquisition enters recovery; recovery itself is best-effort
/// and ends in `Failed` either way.
pub open spec fn spec_step(s: InstallState, ok: bool, c: &InstallConfig) -> InstallState {
    match s {
        InstallState::Start => if ok {
            InstallState::DeviceAcquired
        } else {
            InstallState::Failed
        },
        InstallState::DeviceAcquired => if ok {
            InstallState::ImageWritten
        } else {
            InstallState::Recovering
        },
        InstallState::ImageWritten => if ok {
            InstallState::TableReread
        } else {
            InstallState::Recovering
        },
        InstallState::TableReread => if ok {
            InstallState::Settled
        } else {
            InstallState::Recovering
        },
        InstallState::Settled => if !ok {
            InstallState::Recovering
        } else if needs_postprocessing(c) {
            InstallState::Postprocessed
        } else {
            InstallState::Done
        },
        InstallState::Postprocessed => InstallState::Done,
        InstallState::Recovering => InstallState::Failed,
        InstallState::Done => InstallState::Done,
        InstallState::Failed => InstallState::Failed,
    }
}

/// The action owed in a state.
pub fn install_action(s: InstallState, c: &InstallConfig) -> (r: InstallAction)
    ensures
        r == spec_action(s, c),
{
    match s {
        InstallState::Start => InstallAction::AcquireDevice,
        InstallState::DeviceAcquired => InstallAction::WriteImage,
        InstallState::ImageWritten => InstallAction::RereadTable,
        InstallState::TableReread => InstallAction::Settle,
        InstallState::Settled => {
            if c.any_postprocessing() {
                InstallAction::Postprocess
            } else {
                InstallAction::Finish
            }
        },
        InstallState::Postprocessed => InstallAction::Finish,
        InstallState::Recovering => {
            if c.preserve_on_error {
                InstallAction::Finish
            } else {
                InstallAction::ClearPartitionTable
            }
        },
        InstallState::Done => InstallAction::Finish,
        InstallState::Failed => InstallAction::Finish,
    }
}

/// Advance the machine on the outcome of the current state's action.
pub fn install_step(s: InstallState, ok: bool, c: &InstallConfig) -> (r: InstallState)
    ensures
        r == spec_step(s, ok, c),
{
    match s {
        InstallState::Start => {
            if ok {
                InstallState::DeviceAcquired
            } else {
                InstallState::Failed
            }
        },
        InstallState::DeviceAcquired => {
            if ok {
                InstallState::ImageWritten
            } else {
                InstallState::Recovering
            }
        },
        InstallState::ImageWritten => {
            if ok {
                InstallState::TableReread
            } else {
                InstallState::Recovering
            }
        },
        InstallState::TableReread => {
            if ok {
                InstallState::Settled
            } else {
                InstallState::Recovering
            }
        },
        InstallState::Settled => {
            if !ok {
                InstallState::Recovering
            } else if c.any_postprocessing() {
                InstallState::Postprocessed
            } else {
                InstallState::Done
            }
        },
        InstallState::Postprocessed => InstallState::Done,
        InstallState::Recovering => InstallState::Failed,
        InstallState::Done => InstallState::Done,
        InstallState::Failed => InstallState::Failed,
    }
}

/// Law: a failure after the device is acquired never leaves the machine
/// anywhere but recovery, recovery's one action is to destroy the
/// partition table unless the caller opted to preserve it, and recovery
/// ends in `Failed`. A failure before acquisition is terminal at once,
/// with no device mutation asked of the driver.
pub proof fn lemma_failure_routes_through_recovery(s: InstallState, c: &InstallConfig)
    ensures
        post_acquisition(s) ==> spec_step(s, false, c) == InstallState::Recovering,
        spec_action(InstallState::Recovering, c) == InstallAction::ClearPartitionTable <==> !c.preserve_on_error,
        c.preserve_on_error ==> spec_action(InstallState::Recovering, c) == InstallAction::Finish,
        spec_step(InstallState::Recovering, true, c) == InstallState::Failed,
        spec_step(InstallState::Recovering, false, c) == InstallState::Failed,
        spec_step(InstallState::Start, false, c) == InstallState::Failed,
        spec_action(InstallState::Start, c) == InstallAction::AcquireDevice,
{
}

/// How many steps a state is, at most, from a terminal state.
pub open spec fn state_rank(s: InstallState) -> nat {
    match s {
        InstallState::Start => 6,
        InstallState::DeviceAcquired => 5,
        InstallState::ImageWritten => 4,
        InstallState::TableReread => 3,
        InstallState::Settled => 2,
        InstallState::Postprocessed => 1,
        InstallState::Recovering => 1,
        InstallState::Done => 0,
        InstallState::Failed => 0,
    }
}

/// Law: from any state the machine reaches a terminal state, and stays
/// there, within the number of pipeline stages.
pub proof fn lemma_machine_terminates(s: InstallState, outcomes: Seq<bool>, c: &InstallConfig)
    requires
        outcomes.len() >= state_rank(s),
    ensures
        terminal(run_steps(s, outcomes, c)),
    decreases outcomes.len(),
{
    if terminal(s) {
        lemma_run_steps_terminal(s, outcomes, c);
    } else {
        assert(state_rank(spec_step(s, outcomes[0], c)) < state_rank(s));
        lemma_machine_terminates(spec_step(s, outcomes[0], c), outcomes.drop_first(), c);
    }
}

/// The state after feeding a sequence of outcomes through the machine.
pub open spec fn run_steps(s: InstallState, outcomes: Seq<bool>, c: &InstallConfig) -> InstallState
    decreases outcomes.len(),
{
    if outcomes.len() == 0 {
        s
    } else {
        run_steps(spec_step(s, outcomes[0], c), outcomes.drop_first(), c)
    }
}

proof fn lemma_run_steps_terminal(s: InstallState, outcomes: Seq<bool>, c: &InstallConfig)
    requires
        terminal(s),
    ensures
        run_steps(s, outcomes, c) == s,
    decreases outcomes.len(),
{
    if outcomes.len() > 0 {
        lemma_run_steps_terminal(spec_step(s, outcomes[0], c), outcomes.drop_first(), c);
    }
}

} // verus!
