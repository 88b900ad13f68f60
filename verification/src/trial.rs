//! A trial of body-temperature compensation: a capture with it, one without it,
//! and one with the settings restored.
use vstd::prelude::*;

use crate::compensation::{
    compensation_start, switch_config, switched, CompensationSwitch, SwitchView,
};
use crate::radiometric::{
    capture_outcome, capture_start, CaptureQuery, CaptureView, RadiometricCapture,
};
use crate::transaction::{DoubleGetView, SimpleGet, SimpleGetView};
use crate::transfer::{
    select_view, transfer_view, CameraError, ControlTransfer, DataView, Device, Reply, ReplyView,
    TransferView,
};

verus! {

/// The stages of a trial, in order.
#[derive(Debug, Clone, Copy, PartialEq, Eq, Structural)]
pub enum TrialStage {
    ReadSaved,
    CaptureOn,
    SwitchOff,
    CaptureOff,
    Restore,
    ReadBack,
    CaptureRestored,
    Done,
}

enum TrialStep {
    Read(SimpleGet),
    Capture(CaptureQuery),
    Write(CompensationSwitch),
    Done,
    Failed(CameraError),
}

/// What a trial is at within its stage.
#[verifier::ext_equal]
pub enum TrialStepView {
    Read(SimpleGetView),
    Capture(DoubleGetView),
    Write(SwitchView),
    Done,
    Failed(CameraError),
}

impl View for TrialStep {
    type V = TrialStepView;

    closed spec fn view(&self) -> TrialStepView {
        match *self {
            TrialStep::Read(get) => TrialStepView::Read(get@),
            TrialStep::Capture(query) => TrialStepView::Capture(query@),
            TrialStep::Write(switch) => TrialStepView::Write(switch@),
            TrialStep::Done => TrialStepView::Done,
            TrialStep::Failed(e) => TrialStepView::Failed(e),
        }
    }
}

/// A trial under way.
pub struct CompensationTrial {
    stage: TrialStage,
    step: TrialStep,
    saved: Vec<u8>,
    back: Vec<u8>,
    captures: Vec<RadiometricCapture>,
}

/// Mathematical counterpart of [`CompensationTrial`].
#[verifier::ext_equal]
pub struct TrialView {
    pub stage: TrialStage,
    pub step: TrialStepView,
    /// The settings that were found.
    pub saved: Seq<u8>,
    /// The settings that were read back in the end.
    pub back: Seq<u8>,
    pub captures: Seq<CaptureView>,
}

/// Counterpart of a list of captures.
pub open spec fn captures_view(captures: Seq<RadiometricCapture>) -> Seq<CaptureView> {
    captures.map_values(|c: RadiometricCapture| c@)
}

impl View for CompensationTrial {
    type V = TrialView;

    closed spec fn view(&self) -> TrialView {
        TrialView {
            stage: self.stage,
            step: self.step@,
            saved: self.saved@,
            back: self.back@,
            captures: captures_view(self.captures@),
        }
    }
}

/// The stage that follows.
pub open spec fn next_stage(stage: TrialStage) -> TrialStage {
    match stage {
        TrialStage::ReadSaved => TrialStage::CaptureOn,
        TrialStage::CaptureOn => TrialStage::SwitchOff,
        TrialStage::SwitchOff => TrialStage::CaptureOff,
        TrialStage::CaptureOff => TrialStage::Restore,
        TrialStage::Restore => TrialStage::ReadBack,
        TrialStage::ReadBack => TrialStage::CaptureRestored,
        TrialStage::CaptureRestored => TrialStage::Done,
        TrialStage::Done => TrialStage::Done,
    }
}

/// How a stage begins. Settings without an enable byte cannot be switched.
pub open spec fn stage_step(stage: TrialStage, saved: Seq<u8>) -> TrialStepView {
    match stage {
        TrialStage::ReadSaved => TrialStepView::Read(compensation_start()),
        TrialStage::ReadBack => TrialStepView::Read(compensation_start()),
        TrialStage::CaptureOn => TrialStepView::Capture(capture_start()),
        TrialStage::CaptureOff => TrialStepView::Capture(capture_start()),
        TrialStage::CaptureRestored => TrialStepView::Capture(capture_start()),
        TrialStage::SwitchOff => if saved.len() < 2 {
            TrialStepView::Failed(
                CameraError::ConfigTooShort(if saved.len() == 1 { Some(saved[0]) } else { None }),
            )
        } else {
            TrialStepView::Write(SwitchView::restore(switched(saved, false)))
        },
        TrialStage::Restore => TrialStepView::Write(SwitchView::restore(saved)),
        TrialStage::Done => TrialStepView::Done,
    }
}

impl TrialView {
    pub open spec fn start() -> TrialView {
        TrialView {
            stage: TrialStage::ReadSaved,
            step: stage_step(TrialStage::ReadSaved, Seq::empty()),
            saved: Seq::empty(),
            back: Seq::empty(),
            captures: Seq::empty(),
        }
    }

    /// The stage is over and the next one begins.
    pub open spec fn advance(self) -> TrialView {
        let stage = next_stage(self.stage);
        TrialView { stage, step: stage_step(stage, self.saved), ..self }
    }

    pub open spec fn at(self, step: TrialStepView) -> TrialView {
        TrialView { step, ..self }
    }

    /// The transfer to carry out next; none once the trial has ended.
    pub open spec fn pending(self) -> Option<TransferView> {
        match self.step {
            TrialStepView::Read(get) => get.pending(),
            TrialStepView::Capture(get) => get.pending(),
            TrialStepView::Write(switch) => switch.pending(),
            _ => None,
        }
    }

    /// Settings were read, or could not be.
    pub open spec fn take_settings(self, r: Result<Seq<u8>, CameraError>) -> TrialView {
        match r {
            Err(e) => self.at(TrialStepView::Failed(e)),
            Ok(d) => if self.stage is ReadSaved {
                TrialView { saved: d, ..self }.advance()
            } else {
                TrialView { back: d, ..self }.advance()
            },
        }
    }

    /// The state after the pending transfer was answered by `r`.
    pub open spec fn after(self, r: ReplyView) -> TrialView {
        match self.step {
            TrialStepView::Read(get) => {
                let next = get.after(r);
                if next.pending() is None {
                    self.take_settings(next.outcome())
                } else {
                    self.at(TrialStepView::Read(next))
                }
            },
            TrialStepView::Capture(get) => {
                let next = get.after(r);
                if next.pending() is None {
                    match capture_outcome(next) {
                        Ok(c) => TrialView { captures: self.captures.push(c), ..self }.advance(),
                        Err(e) => self.at(TrialStepView::Failed(e)),
                    }
                } else {
                    self.at(TrialStepView::Capture(next))
                }
            },
            TrialStepView::Write(switch) => {
                let next = switch.after(r);
                if next.pending() is None {
                    match next.outcome() {
                        Ok(_) => self.advance(),
                        Err(e) => self.at(TrialStepView::Failed(e)),
                    }
                } else {
                    self.at(TrialStepView::Write(next))
                }
            },
            _ => self,
        }
    }

    /// What an ended trial delivers.
    pub open spec fn outcome(self) -> Result<(), CameraError> {
        match self.step {
            TrialStepView::Failed(e) => Err(e),
            _ => Ok(()),
        }
    }
}

impl CompensationTrial {
    /// Starts a trial.
    pub fn new() -> (t: CompensationTrial)
        ensures
            t@ == TrialView::start(),
    {
        let t = CompensationTrial {
            stage: TrialStage::ReadSaved,
            step: TrialStep::Read(Device::body_temp_compensation()),
            saved: Vec::new(),
            back: Vec::new(),
            captures: Vec::new(),
        };
        assert(captures_view(t.captures@) =~= Seq::<CaptureView>::empty());
        t
    }

    fn advance(&mut self)
        ensures
            final(self)@ == old(self)@.advance(),
    {
        match self.stage {
            TrialStage::ReadSaved => {
                self.stage = TrialStage::CaptureOn;
                self.step = TrialStep::Capture(Device::capture_radiometric());
            },
            TrialStage::CaptureOn => {
                self.stage = TrialStage::SwitchOff;
                if self.saved.len() < 2 {
                    let first: Option<u8> = if self.saved.len() == 1 {
                        Some(self.saved[0])
                    } else {
                        None
                    };
                    self.step = TrialStep::Failed(CameraError::ConfigTooShort(first));
                } else {
                    let off: Vec<u8> = switch_config(self.saved.as_slice(), false);
                    self.step =
                    TrialStep::Write(Device::restore_body_temp_compensation(off.as_slice()));
                }
            },
            TrialStage::SwitchOff => {
                self.stage = TrialStage::CaptureOff;
                self.step = TrialStep::Capture(Device::capture_radiometric());
            },
            TrialStage::CaptureOff => {
                self.stage = TrialStage::Restore;
                self.step =
                TrialStep::Write(Device::restore_body_temp_compensation(self.saved.as_slice()));
            },
            TrialStage::Restore => {
                self.stage = TrialStage::ReadBack;
                self.step = TrialStep::Read(Device::body_temp_compensation());
            },
            TrialStage::ReadBack => {
                self.stage = TrialStage::CaptureRestored;
                self.step = TrialStep::Capture(Device::capture_radiometric());
            },
            TrialStage::CaptureRestored => {
                self.stage = TrialStage::Done;
                self.step = TrialStep::Done;
            },
            TrialStage::Done => {
                self.step = TrialStep::Done;
            },
        }
    }

    /// The transfer to carry out next; `None` once the trial has ended.
    pub fn pending(&self) -> (t: Option<ControlTransfer>)
        ensures
            transfer_view(t) == self@.pending(),
    {
        match &self.step {
            TrialStep::Read(get) => get.pending(),
            TrialStep::Capture(query) => query.pending(),
            TrialStep::Write(switch) => switch.pending(),
            _ => None,
        }
    }

    /// Takes the reply to the pending transfer.
    pub fn reply(&mut self, reply: &Reply)
        ensures
            final(self)@ == old(self)@.after(reply@),
    {
        let mut step: TrialStep = TrialStep::Done;
        std::mem::swap(&mut step, &mut self.step);
        match step {
            TrialStep::Read(get) => {
                let mut get = get;
                get.reply(reply);
                if !get.ended() {
                    self.step = TrialStep::Read(get);
                    return;
                }
                match get.outcome() {
                    Err(e) => {
                        self.step = TrialStep::Failed(e);
                    },
                    Ok(d) => {
                        if self.stage == TrialStage::ReadSaved {
                            self.saved = d;
                        } else {
                            self.back = d;
                        }
                        self.advance();
                    },
                }
            },
            TrialStep::Capture(query) => {
                let mut query = query;
                query.reply(reply);
                if query.pending().is_some() {
                    self.step = TrialStep::Capture(query);
                    return;
                }
                match query.outcome() {
                    Err(e) => {
                        self.step = TrialStep::Failed(e);
                    },
                    Ok(c) => {
                        self.captures.push(c);
                        assert(captures_view(self.captures@) =~= captures_view(
                            old(self).captures@,
                        ).push(c@));
                        self.advance();
                    },
                }
            },
            TrialStep::Write(switch) => {
                let mut switch = switch;
                switch.reply(reply);
                if switch.pending().is_some() {
                    self.step = TrialStep::Write(switch);
                    return;
                }
                match switch.outcome() {
                    Err(e) => {
                        self.step = TrialStep::Failed(e);
                    },
                    Ok(_) => {
                        self.advance();
                    },
                }
            },
            other => {
                self.step = other;
            },
        }
    }

    /// The stage that the trial is at.
    pub fn stage(&self) -> (s: TrialStage)
        ensures
            s == self@.stage,
    {
        self.stage
    }

    /// The settings that were found.
    pub fn saved(&self) -> (s: &Vec<u8>)
        ensures
            s@ == self@.saved,
    {
        &self.saved
    }

    /// The settings that were read back in the end.
    pub fn back(&self) -> (s: &Vec<u8>)
        ensures
            s@ == self@.back,
    {
        &self.back
    }

    /// The captures so far.
    pub fn captures(&self) -> (c: &Vec<RadiometricCapture>)
        ensures
            captures_view(c@) == self@.captures,
    {
        &self.captures
    }

    /// Whether the trial went through.
    pub fn outcome(&self) -> (r: Result<(), CameraError>)
        requires
            self@.pending() is None,
        ensures
            r == self@.outcome(),
    {
        match &self.step {
            TrialStep::Failed(e) => Err(*e),
            _ => Ok(()),
        }
    }
}

/// A trial goes through its stages in order, and the settings that were found
/// stay as they are from then on.
pub proof fn law_trial_goes_in_order(t: TrialView, r: ReplyView)
    ensures
        t.after(r).stage == t.stage || t.after(r).stage == next_stage(t.stage),
        t.stage !is ReadSaved ==> t.after(r).saved == t.saved,
{
}

/// What a trial writes without compensation is the found settings with the
/// enable byte off, and what it writes after that is the found settings as they
/// were.
pub proof fn law_trial_restores(t: TrialView)
    ensures
        t.stage is CaptureOn && t.saved.len() >= 2 ==> t.advance().step == TrialStepView::Write(
            SwitchView::restore(switched(t.saved, false)),
        ),
        t.stage is CaptureOff ==> t.advance().step == TrialStepView::Write(
            SwitchView::restore(t.saved),
        ),
        t.stage is Restore ==> t.advance().step == TrialStepView::Read(compensation_start()),
{
}

/// The stages of a trial: read, capture, switch off, capture, restore, read back,
/// capture, done. Reads and captures begin with their own commands.
pub proof fn law_trial_stages(t: TrialView)
    ensures
        TrialView::start().pending() == Some(select_view(3, 8)),
        TrialView::start().stage is ReadSaved,
        t.stage is ReadSaved ==> t.advance().stage is CaptureOn && t.advance().pending() == Some(
            select_view(3, 9),
        ),
        t.stage is CaptureOn ==> t.advance().stage is SwitchOff,
        t.stage is SwitchOff ==> t.advance().stage is CaptureOff && t.advance().pending() == Some(
            select_view(3, 9),
        ),
        t.stage is CaptureOff ==> t.advance().stage is Restore,
        t.stage is Restore ==> t.advance().stage is ReadBack && t.advance().pending() == Some(
            select_view(3, 8),
        ),
        t.stage is ReadBack ==> t.advance().stage is CaptureRestored && t.advance().pending()
            == Some(select_view(3, 9)),
        t.stage is CaptureRestored ==> t.advance().stage is Done && t.advance().pending() is None
            && t.advance().outcome() == Ok::<(), CameraError>(()),
{
}

/// What a trial writes, byte by byte: to switch off, the found settings with a
/// one in front and a zero behind it; to restore, the found settings as they
/// were found. Settings of fewer than two bytes end the trial.
pub proof fn law_trial_writes(t: TrialView, ack: Seq<u8>)
    ensures
        t.stage is CaptureOn && t.saved.len() >= 2 ==> (t.advance().after(
            ReplyView::Data(ack),
        ).pending() matches Some(x) && {
            &&& x.request_type == 0x21 && x.request == 0x01
            &&& x.value == 0x0300 && x.index == 0x0a00
            &&& x.data matches DataView::Out(w) && {
                &&& w.len() == t.saved.len()
                &&& w[0] == 1 && w[1] == 0
                &&& forall|i: int| 2 <= i < w.len() ==> #[trigger] w[i] == t.saved[i]
            }
        }),
        t.stage is CaptureOff ==> t.advance().after(ReplyView::Data(ack)).pending() == Some(
            TransferView {
                request_type: 0x21,
                request: 0x01,
                value: 0x0300,
                index: 0x0a00,
                data: DataView::Out(t.saved),
            },
        ),
        t.stage is CaptureOn && t.saved.len() == 0 ==> t.advance().outcome() == Err::<
            (),
            CameraError,
        >(CameraError::ConfigTooShort(None)),
        t.stage is CaptureOn && t.saved.len() == 1 ==> t.advance().outcome() == Err::<
            (),
            CameraError,
        >(CameraError::ConfigTooShort(Some(t.saved[0]))),
{
}

/// What a trial keeps: the settings of the first read, those of the second, and
/// every capture behind the others; a failed step ends it with its error.
pub proof fn law_trial_keeps(t: TrialView, r: ReplyView)
    ensures
        t.step matches TrialStepView::Read(get) ==> get.after(r).pending() is None ==> (match get.after(
            r,
        ).outcome() {
            Ok(d) => {
                &&& t.stage is ReadSaved ==> t.after(r) == (TrialView { saved: d, ..t }).advance()
                &&& t.stage !is ReadSaved ==> t.after(r) == (TrialView { back: d, ..t }).advance()
            },
            Err(e) => t.after(r).pending() is None && t.after(r).outcome() == Err::<
                (),
                CameraError,
            >(e),
        }),
        t.step matches TrialStepView::Capture(get) ==> get.after(r).pending() is None ==> (match capture_outcome(
            get.after(r),
        ) {
            Ok(c) => t.after(r) == (TrialView { captures: t.captures.push(c), ..t }).advance(),
            Err(e) => t.after(r).pending() is None && t.after(r).outcome() == Err::<
                (),
                CameraError,
            >(e),
        }),
        t.step matches TrialStepView::Write(switch) ==> switch.after(r).pending() is None ==> (match switch.after(
            r,
        ).outcome() {
            Ok(_) => t.after(r) == t.advance(),
            Err(e) => t.after(r).pending() is None && t.after(r).outcome() == Err::<
                (),
                CameraError,
            >(e),
        }),
        t.advance().saved == t.saved,
        t.advance().back == t.back,
        t.advance().captures == t.captures,
{
}

/// The counterparts of captures hold all of them, in order.
pub proof fn law_captures_counterpart(captures: Seq<RadiometricCapture>, i: int)
    ensures
        captures_view(captures).len() == captures.len(),
        0 <= i < captures.len() ==> captures_view(captures)[i] == captures[i]@,
{
}

/// A stage goes on with its own exchange until that has ended.
pub proof fn law_trial_follows_exchange(t: TrialView, r: ReplyView)
    ensures
        t.step matches TrialStepView::Read(get) ==> t.pending() == get.pending() && (get.after(
            r,
        ).pending() is Some ==> t.after(r) == (TrialView {
            step: TrialStepView::Read(get.after(r)),
            ..t
        })),
        t.step matches TrialStepView::Capture(get) ==> t.pending() == get.pending() && (get.after(
            r,
        ).pending() is Some ==> t.after(r) == (TrialView {
            step: TrialStepView::Capture(get.after(r)),
            ..t
        })),
        t.step matches TrialStepView::Write(switch) ==> t.pending() == switch.pending() && (
        switch.after(r).pending() is Some ==> t.after(r) == (TrialView {
            step: TrialStepView::Write(switch.after(r)),
            ..t
        })),
{
}

} // verus!
