//! Body-temperature compensation: reading, switching and restoring it.
use vstd::prelude::*;

use crate::roi::{CHANNEL, GROUP_THERMAL};
use crate::transaction::{SimpleGet, SimpleGetView, MAX_SIMPLE_LEN};
use crate::transfer::{
    select_view, transfer_view, xu_get_len_view, xu_get_view, xu_set_view, CameraError,
    ControlTransfer, DataView, Device, Reply, ReplyView, TransferError, TransferView,
};
use crate::wire::{copy_bytes, filled, u32_le};

verus! {

/// Thermometry command: body-temperature compensation.
pub const SUB_COMPENSATION: u8 = 8;

/// The settings that switch compensation on or off: channel and enable byte
/// are written, everything else stays as it was read.
pub open spec fn switched(config: Seq<u8>, enabled: bool) -> Seq<u8> {
    config.update(0, CHANNEL).update(1, if enabled { 1u8 } else { 0u8 })
}

/// The settings that switch compensation on or off.
pub fn switch_config(config: &[u8], enabled: bool) -> (out: Vec<u8>)
    requires
        config@.len() >= 2,
    ensures
        out@ == switched(config@, enabled),
{
    let mut out: Vec<u8> = copy_bytes(config);
    out.set(0, CHANNEL);
    out.set(1, if enabled { 1 } else { 0 });
    assert(out@ =~= switched(config@, enabled));
    out
}

/// Whether settings that were read have compensation switched on.
pub fn is_compensating(config: &[u8]) -> (on: bool)
    ensures
        on == (config@.len() >= 2 && config@[1] == 1),
{
    config.len() >= 2 && config[1] == 1
}

/// Where a switch of compensation stands.
#[derive(Debug, Clone, Copy, PartialEq, Eq)]
pub enum SwitchPhase {
    Read,
    Select,
    Write,
    Done,
    Failed(CameraError),
}

/// A switch of compensation under way: read the settings, select the command,
/// write the settings.
pub struct CompensationSwitch {
    enabled: bool,
    phase: SwitchPhase,
    get: SimpleGet,
    config: Vec<u8>,
}

/// Mathematical counterpart of [`CompensationSwitch`].
#[verifier::ext_equal]
pub struct SwitchView {
    pub enabled: bool,
    pub phase: SwitchPhase,
    pub get: SimpleGetView,
    pub config: Seq<u8>,
}

impl View for CompensationSwitch {
    type V = SwitchView;

    closed spec fn view(&self) -> SwitchView {
        SwitchView {
            enabled: self.enabled,
            phase: self.phase,
            get: self.get@,
            config: self.config@,
        }
    }
}

/// The read of the compensation settings.
pub open spec fn compensation_start() -> SimpleGetView {
    SimpleGetView::start(GROUP_THERMAL, SUB_COMPENSATION)
}

impl SwitchView {
    pub open spec fn start(enabled: bool) -> SwitchView {
        SwitchView {
            enabled,
            phase: SwitchPhase::Read,
            get: compensation_start(),
            config: Seq::empty(),
        }
    }

    /// A switch that only writes back settings saved earlier.
    pub open spec fn restore(saved: Seq<u8>) -> SwitchView {
        SwitchView {
            enabled: false,
            phase: SwitchPhase::Select,
            get: compensation_start(),
            config: saved,
        }
    }

    /// The transfer to carry out next; none once the switch has ended.
    pub open spec fn pending(self) -> Option<TransferView> {
        match self.phase {
            SwitchPhase::Read => self.get.pending(),
            SwitchPhase::Select => Some(select_view(GROUP_THERMAL, SUB_COMPENSATION)),
            SwitchPhase::Write => Some(xu_set_view(GROUP_THERMAL, self.config)),
            _ => None,
        }
    }

    pub open spec fn enter(self, phase: SwitchPhase) -> SwitchView {
        SwitchView { phase, ..self }
    }

    /// The settings were read, or could not be.
    pub open spec fn take_config(self, r: Result<Seq<u8>, CameraError>) -> SwitchView {
        match r {
            Err(e) => self.enter(SwitchPhase::Failed(e)),
            Ok(config) => if config.len() < 2 {
                self.enter(
                    SwitchPhase::Failed(
                        CameraError::ConfigTooShort(
                            if config.len() == 1 { Some(config[0]) } else { None },
                        ),
                    ),
                )
            } else {
                SwitchView {
                    config: switched(config, self.enabled),
                    phase: SwitchPhase::Select,
                    ..self
                }
            },
        }
    }

    /// The state after the pending transfer was answered by `r`.
    pub open spec fn after(self, r: ReplyView) -> SwitchView {
        match self.phase {
            SwitchPhase::Read => {
                let next = SwitchView { get: self.get.after(r), ..self };
                if next.get.pending() is None {
                    next.take_config(next.get.outcome())
                } else {
                    next
                }
            },
            SwitchPhase::Select => match r {
                ReplyView::Failed(e) => self.enter(SwitchPhase::Failed(CameraError::Select(e))),
                ReplyView::Data(_) => self.enter(SwitchPhase::Write),
            },
            SwitchPhase::Write => match r {
                ReplyView::Failed(e) => self.enter(
                    SwitchPhase::Failed(CameraError::ConfigWrite(e)),
                ),
                ReplyView::Data(_) => self.enter(SwitchPhase::Done),
            },
            _ => self,
        }
    }

    /// What an ended switch delivers.
    pub open spec fn outcome(self) -> Result<(), CameraError> {
        match self.phase {
            SwitchPhase::Failed(e) => Err(e),
            _ => Ok(()),
        }
    }
}

impl CompensationSwitch {
    /// The transfer to carry out next; `None` once the switch has ended.
    pub fn pending(&self) -> (t: Option<ControlTransfer>)
        ensures
            transfer_view(t) == self@.pending(),
    {
        match self.phase {
            SwitchPhase::Read => self.get.pending(),
            SwitchPhase::Select => Some(Device::select_command(GROUP_THERMAL, SUB_COMPENSATION)),
            SwitchPhase::Write => Some(Device::xu_set(GROUP_THERMAL, self.config.as_slice())),
            _ => None,
        }
    }

    /// Takes the reply to the pending transfer.
    pub fn reply(&mut self, reply: &Reply)
        ensures
            final(self)@ == old(self)@.after(reply@),
    {
        match self.phase {
            SwitchPhase::Read => {
                self.get.reply(reply);
                if self.get.ended() {
                    match self.get.outcome() {
                        Err(e) => {
                            self.phase = SwitchPhase::Failed(e);
                        },
                        Ok(config) => {
                            if config.len() < 2 {
                                let first: Option<u8> = if config.len() == 1 {
                                    Some(config[0])
                                } else {
                                    None
                                };
                                self.phase =
                                SwitchPhase::Failed(CameraError::ConfigTooShort(first));
                            } else {
                                self.config = switch_config(config.as_slice(), self.enabled);
                                self.phase = SwitchPhase::Select;
                            }
                        },
                    }
                }
            },
            SwitchPhase::Select => match reply {
                Reply::Failed(e) => {
                    self.phase = SwitchPhase::Failed(CameraError::Select(*e));
                },
                Reply::Data(_) => {
                    self.phase = SwitchPhase::Write;
                },
            },
            SwitchPhase::Write => match reply {
                Reply::Failed(e) => {
                    self.phase = SwitchPhase::Failed(CameraError::ConfigWrite(*e));
                },
                Reply::Data(_) => {
                    self.phase = SwitchPhase::Done;
                },
            },
            _ => {},
        }
    }

    /// Whether the settings were written.
    pub fn outcome(&self) -> (r: Result<(), CameraError>)
        requires
            self@.pending() is None,
        ensures
            r == self@.outcome(),
    {
        match self.phase {
            SwitchPhase::Failed(e) => Err(e),
            _ => Ok(()),
        }
    }
}

impl Device {
    /// Starts a read of the compensation settings. Byte 1 is the enable byte.
    pub fn body_temp_compensation() -> (t: SimpleGet)
        ensures
            t@ == compensation_start(),
    {
        Device::simple_get(GROUP_THERMAL, SUB_COMPENSATION)
    }

    /// Starts to switch compensation on or off.
    pub fn set_body_temp_compensation(enabled: bool) -> (t: CompensationSwitch)
        ensures
            t@ == SwitchView::start(enabled),
    {
        CompensationSwitch {
            enabled,
            phase: SwitchPhase::Read,
            get: Device::body_temp_compensation(),
            config: Vec::new(),
        }
    }

    /// Starts to write back settings that were read earlier.
    pub fn restore_body_temp_compensation(saved: &[u8]) -> (t: CompensationSwitch)
        ensures
            t@ == SwitchView::restore(saved@),
    {
        CompensationSwitch {
            enabled: false,
            phase: SwitchPhase::Select,
            get: Device::body_temp_compensation(),
            config: copy_bytes(saved),
        }
    }
}

/// Switching compensation changes the channel and the enable byte at most.
pub proof fn law_switch_keeps_rest(config: Seq<u8>, enabled: bool)
    requires
        config.len() >= 2,
    ensures
        switched(config, enabled).len() == config.len(),
        switched(config, enabled)[0] == 1,
        switched(config, enabled)[1] == (if enabled { 1u8 } else { 0u8 }),
        forall|i: int| 2 <= i < config.len() ==> switched(config, enabled)[i] == config[i],
{
}

/// Switching reads the settings, selects the command again, and writes the
/// settings back with the enable byte switched. The camera may send fewer bytes
/// than it announced.
pub proof fn law_switch_writes_what_was_read(
    enabled: bool,
    ack: Seq<u8>,
    len_reply: Seq<u8>,
    config: Seq<u8>,
)
    requires
        2 <= config.len() <= u32_le(filled(4, len_reply), 0) <= MAX_SIMPLE_LEN,
    ensures
        ({
            let s0 = SwitchView::start(enabled);
            let s1 = s0.after(ReplyView::Data(ack));
            let s2 = s1.after(ReplyView::Data(len_reply));
            let s3 = s2.after(ReplyView::Data(config));
            let s4 = s3.after(ReplyView::Data(ack));
            let s5 = s4.after(ReplyView::Data(ack));
            &&& s0.pending() == Some(select_view(3, 8))
            &&& s1.pending() == Some(xu_get_len_view(3))
            &&& s2.pending() == Some(xu_get_view(3, u32_le(filled(4, len_reply), 0) as nat))
            &&& s3.pending() == Some(select_view(3, 8))
            &&& s4.pending() == Some(xu_set_view(3, switched(config, enabled)))
            &&& s5.pending() is None
            &&& s5.outcome() == Ok::<(), CameraError>(())
        }),
{
}

/// Restoring writes the saved settings back as they are.
pub proof fn law_restore_writes_saved(saved: Seq<u8>, ack: Seq<u8>)
    ensures
        ({
            let s0 = SwitchView::restore(saved);
            let s1 = s0.after(ReplyView::Data(ack));
            let s2 = s1.after(ReplyView::Data(ack));
            &&& s0.pending() == Some(select_view(3, 8))
            &&& s1.pending() == Some(xu_set_view(3, saved))
            &&& s2.pending() is None
            &&& s2.outcome() == Ok::<(), CameraError>(())
        }),
{
}

/// A failed transfer ends a switch with an error, before anything else is
/// written, and an ended switch stays as it is.
pub proof fn law_switch_failure_ends(s: SwitchView, e: TransferError, r: ReplyView)
    ensures
        s.pending() is Some ==> s.after(ReplyView::Failed(e)).phase is Failed,
        s.phase is Failed ==> s.pending() is None,
        s.pending() is None && !(s.phase is Read) ==> s.after(r) == s,
{
}

/// What became of compensation before a recording.
#[derive(Debug, PartialEq, Eq)]
pub enum BeforeRecording {
    /// It was on and is off now; holds the settings to restore.
    SwitchedOff(Vec<u8>),
    /// It was not on.
    AlreadyOff,
    /// Its settings could not be read; it is left as it is.
    Unknown(CameraError),
}

/// Mathematical counterpart of [`BeforeRecording`].
#[verifier::ext_equal]
pub enum BeforeRecordingView {
    SwitchedOff(Seq<u8>),
    AlreadyOff,
    Unknown(CameraError),
}

impl View for BeforeRecording {
    type V = BeforeRecordingView;

    open spec fn view(&self) -> BeforeRecordingView {
        match *self {
            BeforeRecording::SwitchedOff(saved) => BeforeRecordingView::SwitchedOff(saved@),
            BeforeRecording::AlreadyOff => BeforeRecordingView::AlreadyOff,
            BeforeRecording::Unknown(e) => BeforeRecordingView::Unknown(e),
        }
    }
}

enum OffStep {
    Read(SimpleGet),
    Switch(CompensationSwitch),
    SwitchedOff,
    AlreadyOff,
    Unknown(CameraError),
    Failed(CameraError),
}

/// Where switching off before a recording stands.
#[verifier::ext_equal]
pub enum OffStepView {
    Read(SimpleGetView),
    Switch(SwitchView),
    SwitchedOff,
    AlreadyOff,
    Unknown(CameraError),
    Failed(CameraError),
}

impl View for OffStep {
    type V = OffStepView;

    closed spec fn view(&self) -> OffStepView {
        match *self {
            OffStep::Read(get) => OffStepView::Read(get@),
            OffStep::Switch(switch) => OffStepView::Switch(switch@),
            OffStep::SwitchedOff => OffStepView::SwitchedOff,
            OffStep::AlreadyOff => OffStepView::AlreadyOff,
            OffStep::Unknown(e) => OffStepView::Unknown(e),
            OffStep::Failed(e) => OffStepView::Failed(e),
        }
    }
}

/// Compensation being switched off before a recording: the settings are read and
/// kept, and where compensation is on it is switched off.
pub struct CompensationOff {
    step: OffStep,
    saved: Vec<u8>,
}

/// Mathematical counterpart of [`CompensationOff`].
#[verifier::ext_equal]
pub struct OffView {
    pub step: OffStepView,
    pub saved: Seq<u8>,
}

impl View for CompensationOff {
    type V = OffView;

    closed spec fn view(&self) -> OffView {
        OffView { step: self.step@, saved: self.saved@ }
    }
}

impl OffView {
    pub open spec fn start() -> OffView {
        OffView { step: OffStepView::Read(compensation_start()), saved: Seq::empty() }
    }

    /// The transfer to carry out next; none at the end.
    pub open spec fn pending(self) -> Option<TransferView> {
        match self.step {
            OffStepView::Read(get) => get.pending(),
            OffStepView::Switch(switch) => switch.pending(),
            _ => None,
        }
    }

    /// The settings were read, or could not be.
    pub open spec fn take_config(self, r: Result<Seq<u8>, CameraError>) -> OffView {
        match r {
            Err(e) => OffView { step: OffStepView::Unknown(e), ..self },
            Ok(config) => if config.len() >= 2 && config[1] == 1 {
                OffView { step: OffStepView::Switch(SwitchView::start(false)), saved: config }
            } else {
                OffView { step: OffStepView::AlreadyOff, ..self }
            },
        }
    }

    /// The state after the pending transfer was answered by `r`.
    pub open spec fn after(self, r: ReplyView) -> OffView {
        match self.step {
            OffStepView::Read(get) => {
                let next = get.after(r);
                if next.pending() is None {
                    self.take_config(next.outcome())
                } else {
                    OffView { step: OffStepView::Read(next), ..self }
                }
            },
            OffStepView::Switch(switch) => {
                let next = switch.after(r);
                if next.pending() is None {
                    match next.outcome() {
                        Ok(_) => OffView { step: OffStepView::SwitchedOff, ..self },
                        Err(e) => OffView { step: OffStepView::Failed(e), ..self },
                    }
                } else {
                    OffView { step: OffStepView::Switch(next), ..self }
                }
            },
            _ => self,
        }
    }

    /// What became of compensation.
    pub open spec fn outcome(self) -> Result<BeforeRecordingView, CameraError> {
        match self.step {
            OffStepView::AlreadyOff => Ok(BeforeRecordingView::AlreadyOff),
            OffStepView::Unknown(e) => Ok(BeforeRecordingView::Unknown(e)),
            OffStepView::Failed(e) => Err(e),
            _ => Ok(BeforeRecordingView::SwitchedOff(self.saved)),
        }
    }
}

impl CompensationOff {
    /// Starts to switch compensation off before a recording.
    pub fn new() -> (t: CompensationOff)
        ensures
            t@ == OffView::start(),
    {
        CompensationOff {
            step: OffStep::Read(Device::body_temp_compensation()),
            saved: Vec::new(),
        }
    }

    /// The transfer to carry out next; `None` at the end.
    pub fn pending(&self) -> (t: Option<ControlTransfer>)
        ensures
            transfer_view(t) == self@.pending(),
    {
        match &self.step {
            OffStep::Read(get) => get.pending(),
            OffStep::Switch(switch) => switch.pending(),
            _ => None,
        }
    }

    /// Takes the reply to the pending transfer.
    pub fn reply(&mut self, reply: &Reply)
        ensures
            final(self)@ == old(self)@.after(reply@),
    {
        let mut step: OffStep = OffStep::AlreadyOff;
        std::mem::swap(&mut step, &mut self.step);
        match step {
            OffStep::Read(get) => {
                let mut get = get;
                get.reply(reply);
                if get.ended() {
                    match get.outcome() {
                        Err(e) => {
                            self.step = OffStep::Unknown(e);
                        },
                        Ok(config) => {
                            if is_compensating(config.as_slice()) {
                                self.saved = config;
                                self.step =
                                OffStep::Switch(Device::set_body_temp_compensation(false));
                            } else {
                                self.step = OffStep::AlreadyOff;
                            }
                        },
                    }
                } else {
                    self.step = OffStep::Read(get);
                }
            },
            OffStep::Switch(switch) => {
                let mut switch = switch;
                switch.reply(reply);
                if switch.pending().is_none() {
                    match switch.outcome() {
                        Ok(_) => {
                            self.step = OffStep::SwitchedOff;
                        },
                        Err(e) => {
                            self.step = OffStep::Failed(e);
                        },
                    }
                } else {
                    self.step = OffStep::Switch(switch);
                }
            },
            other => {
                self.step = other;
            },
        }
    }

    /// What became of compensation.
    pub fn outcome(self) -> (r: Result<BeforeRecording, CameraError>)
        requires
            self@.pending() is None,
        ensures
            match r {
                Ok(b) => self@.outcome() == Ok::<BeforeRecordingView, CameraError>(b@),
                Err(e) => self@.outcome() == Err::<BeforeRecordingView, CameraError>(e),
            },
    {
        match self.step {
            OffStep::AlreadyOff => Ok(BeforeRecording::AlreadyOff),
            OffStep::Unknown(e) => Ok(BeforeRecording::Unknown(e)),
            OffStep::Failed(e) => Err(e),
            _ => Ok(BeforeRecording::SwitchedOff(self.saved)),
        }
    }
}

/// Where compensation is on, the settings are kept as they were read and
/// compensation is switched off; where it is not, nothing is written. The camera
/// may send fewer bytes than it announced.
pub proof fn law_off_keeps_settings(ack: Seq<u8>, len_reply: Seq<u8>, config: Seq<u8>)
    requires
        config.len() <= u32_le(filled(4, len_reply), 0) <= MAX_SIMPLE_LEN,
        0 < u32_le(filled(4, len_reply), 0),
    ensures
        ({
            let s = OffView::start().after(ReplyView::Data(ack)).after(
                ReplyView::Data(len_reply),
            ).after(ReplyView::Data(config));
            if config.len() >= 2 && config[1] == 1 {
                s.saved == config && s.step == OffStepView::Switch(SwitchView::start(false))
            } else {
                s.pending() is None && s.outcome() == Ok::<BeforeRecordingView, CameraError>(
                    BeforeRecordingView::AlreadyOff,
                )
            }
        }),
{
}

/// Once kept, the settings stay as they are to the end.
pub proof fn law_off_saved_stays(s: OffView, r: ReplyView)
    requires
        s.step !is Read,
    ensures
        s.after(r).saved == s.saved,
        s.after(r).step !is Read,
{
}

/// A switch, byte by byte: the bytes that are written are those that were read,
/// but for a one in front and a one or zero behind it for on or off.
pub proof fn law_switch_bytes(
    enabled: bool,
    acks: (Seq<u8>, Seq<u8>),
    len_reply: Seq<u8>,
    config: Seq<u8>,
)
    requires
        len_reply.len() == 4,
        2 <= config.len() <= len_reply[0] + len_reply[1] * 0x100 + len_reply[2] * 0x10000
            + len_reply[3] * 0x1000000 <= 65536,
    ensures
        SwitchView::start(enabled).after(ReplyView::Data(acks.0)).after(
            ReplyView::Data(len_reply),
        ).after(ReplyView::Data(config)).after(ReplyView::Data(acks.1)).pending() matches Some(t)
            && {
            &&& t.request_type == 0x21 && t.request == 0x01
            &&& t.value == 0x0300 && t.index == 0x0a00
            &&& t.data matches DataView::Out(w) && {
                &&& w.len() == config.len()
                &&& w[0] == 1
                &&& w[1] == (if enabled { 1u8 } else { 0u8 })
                &&& forall|i: int| 2 <= i < config.len() ==> #[trigger] w[i] == config[i]
            }
        },
{
    assert(filled(4, len_reply) =~= len_reply);
    law_switch_writes_what_was_read(enabled, acks.0, len_reply, config);
}

/// Settings of fewer than two bytes cannot be switched; the error holds the byte
/// that came, if one did.
pub proof fn law_switch_needs_two_bytes(
    enabled: bool,
    ack: Seq<u8>,
    len_reply: Seq<u8>,
    config: Seq<u8>,
)
    requires
        len_reply.len() == 4,
        1 <= len_reply[0] + len_reply[1] * 0x100 + len_reply[2] * 0x10000 + len_reply[3] * 0x1000000
            <= 65536,
        config.len() < 2,
    ensures
        ({
            let s = SwitchView::start(enabled).after(ReplyView::Data(ack)).after(
                ReplyView::Data(len_reply),
            ).after(ReplyView::Data(config));
            &&& s.pending() is None
            &&& config.len() == 0 ==> s.outcome() == Err::<(), CameraError>(
                CameraError::ConfigTooShort(None),
            )
            &&& config.len() == 1 ==> s.outcome() == Err::<(), CameraError>(
                CameraError::ConfigTooShort(Some(config[0])),
            )
        }),
{
    assert(filled(4, len_reply) =~= len_reply);
}

/// Each failed transfer of a switch ends it with the error of its step: that of
/// the read, of the selection, or of the write.
pub proof fn law_switch_failures(s: SwitchView, e: TransferError)
    ensures
        s.phase is Select ==> s.after(ReplyView::Failed(e)).outcome() == Err::<(), CameraError>(
            CameraError::Select(e),
        ),
        s.phase is Write ==> s.after(ReplyView::Failed(e)).outcome() == Err::<(), CameraError>(
            CameraError::ConfigWrite(e),
        ),
        s.phase is Read && s.get.pending() is Some ==> s.after(ReplyView::Failed(e)).outcome()
            == Err::<(), CameraError>(s.get.after(ReplyView::Failed(e)).outcome()->Err_0),
{
}

/// Before a recording, from the first transfer to the last: the camera answers
/// the length of its settings, sends them with a one in byte 1, and takes part in
/// the switch, for which it sends its settings again. What comes out at the end
/// is that compensation was switched off, with every byte of the settings as it
/// was first sent. In between, the settings of the second read are written with a
/// one in front and a zero behind it.
pub proof fn law_off_gives_back_what_was_read(
    acks: Seq<Seq<u8>>,
    len_reply: Seq<u8>,
    config: Seq<u8>,
    len_again: Seq<u8>,
    again: Seq<u8>,
)
    requires
        acks.len() == 4,
        len_reply.len() == 4,
        2 <= config.len() <= len_reply[0] + len_reply[1] * 0x100 + len_reply[2] * 0x10000
            + len_reply[3] * 0x1000000 <= 65536,
        config[1] == 1,
        len_again.len() == 4,
        2 <= again.len() <= len_again[0] + len_again[1] * 0x100 + len_again[2] * 0x10000
            + len_again[3] * 0x1000000 <= 65536,
    ensures
        ({
            let s3 = OffView::start().after(ReplyView::Data(acks[0])).after(
                ReplyView::Data(len_reply),
            ).after(ReplyView::Data(config));
            let s7 = s3.after(ReplyView::Data(acks[1])).after(ReplyView::Data(len_again)).after(
                ReplyView::Data(again),
            ).after(ReplyView::Data(acks[2]));
            let s8 = s7.after(ReplyView::Data(acks[3]));
            &&& s7.pending() matches Some(t) && {
                &&& t.request_type == 0x21 && t.request == 0x01
                &&& t.value == 0x0300 && t.index == 0x0a00
                &&& t.data matches DataView::Out(w) && {
                    &&& w.len() == again.len()
                    &&& w[0] == 1 && w[1] == 0
                    &&& forall|i: int| 2 <= i < again.len() ==> #[trigger] w[i] == again[i]
                }
            }
            &&& s8.pending() is None
            &&& s8.outcome() matches Ok(BeforeRecordingView::SwitchedOff(saved)) && {
                &&& saved.len() == config.len()
                &&& forall|i: int| 0 <= i < config.len() ==> #[trigger] saved[i] == config[i]
            }
        }),
{
    assert(filled(4, len_reply) =~= len_reply);
    assert(filled(4, len_again) =~= len_again);
    law_off_keeps_settings(acks[0], len_reply, config);
    let b0 = SwitchView::start(false);
    let b1 = b0.after(ReplyView::Data(acks[1]));
    let b2 = b1.after(ReplyView::Data(len_again));
    let b3 = b2.after(ReplyView::Data(again));
    let b4 = b3.after(ReplyView::Data(acks[2]));
    law_switch_bytes(false, (acks[1], acks[2]), len_again, again);
    let s3 = OffView::start().after(ReplyView::Data(acks[0])).after(
        ReplyView::Data(len_reply),
    ).after(ReplyView::Data(config));
    assert(s3 == (OffView { step: OffStepView::Switch(b0), saved: config }));
    let s4 = s3.after(ReplyView::Data(acks[1]));
    assert(s4 == (OffView { step: OffStepView::Switch(b1), saved: config }));
    let s5 = s4.after(ReplyView::Data(len_again));
    assert(s5 == (OffView { step: OffStepView::Switch(b2), saved: config }));
    let s6 = s5.after(ReplyView::Data(again));
    assert(s6 == (OffView { step: OffStepView::Switch(b3), saved: config }));
    let s7 = s6.after(ReplyView::Data(acks[2]));
    assert(s7 == (OffView { step: OffStepView::Switch(b4), saved: config }));
}

/// Settings with anything but a one in byte 1, or without a byte 1, are left as
/// they are: nothing is written, and compensation counts as off.
pub proof fn law_off_leaves_alone(ack: Seq<u8>, len_reply: Seq<u8>, config: Seq<u8>)
    requires
        len_reply.len() == 4,
        config.len() <= len_reply[0] + len_reply[1] * 0x100 + len_reply[2] * 0x10000 + len_reply[3]
            * 0x1000000 <= 65536,
        1 <= len_reply[0] + len_reply[1] * 0x100 + len_reply[2] * 0x10000 + len_reply[3]
            * 0x1000000,
        config.len() >= 2 ==> config[1] != 1,
    ensures
        ({
            let s = OffView::start().after(ReplyView::Data(ack)).after(
                ReplyView::Data(len_reply),
            ).after(ReplyView::Data(config));
            &&& s.pending() is None
            &&& s.outcome() == Ok::<BeforeRecordingView, CameraError>(
                BeforeRecordingView::AlreadyOff,
            )
        }),
{
    assert(filled(4, len_reply) =~= len_reply);
    law_off_keeps_settings(ack, len_reply, config);
}

/// Where a transfer fails before a recording: while the settings are read, they
/// stay unknown, with the error of the read; while compensation is switched off,
/// the error of the switch comes out.
pub proof fn law_off_failures(s: OffView, e: TransferError)
    ensures
        s.step matches OffStepView::Read(get) ==> get.pending() is Some ==> s.after(
            ReplyView::Failed(e),
        ).outcome() == Ok::<BeforeRecordingView, CameraError>(
            BeforeRecordingView::Unknown(get.after(ReplyView::Failed(e)).outcome()->Err_0),
        ),
        s.step matches OffStepView::Switch(switch) ==> switch.pending() is Some ==> s.after(
            ReplyView::Failed(e),
        ).outcome() == Err::<BeforeRecordingView, CameraError>(
            switch.after(ReplyView::Failed(e)).outcome()->Err_0,
        ),
{
    match s.step {
        OffStepView::Switch(switch) => {
            law_switch_failure_ends(switch, e, ReplyView::Failed(e));
        },
        _ => {},
    }
}

/// Restoring writes every byte of the saved settings to selector 3 again.
pub proof fn law_restore_bytes(saved: Seq<u8>, ack: Seq<u8>)
    ensures
        SwitchView::restore(saved).after(ReplyView::Data(ack)).pending() == Some(
            TransferView {
                request_type: 0x21,
                request: 0x01,
                value: 0x0300,
                index: 0x0a00,
                data: DataView::Out(saved),
            },
        ),
{
}

/// The counterpart of what became of compensation holds all of it.
pub proof fn law_before_recording_counterpart(b: BeforeRecording)
    ensures
        match b {
            BeforeRecording::SwitchedOff(saved) => b@ == BeforeRecordingView::SwitchedOff(saved@),
            BeforeRecording::AlreadyOff => b@ == BeforeRecordingView::AlreadyOff,
            BeforeRecording::Unknown(e) => b@ == BeforeRecordingView::Unknown(e),
        },
{
}

} // verus!
