//! Surveys: one query after the other, whatever comes of each.
//!
//! Where a query fails, the camera's error code is read before the next query
//! begins.
use vstd::prelude::*;

use crate::inspect::{
    corner_region, correction_commands, correction_table, stamp_time, timed_request, GROUP_SYSTEM,
    SUB_BASIC_PARAM, SUB_DEVICE_INFO, SUB_MODE, SUB_REGIONS,
};
use crate::roi::{roi_request, CHANNEL, GROUP_THERMAL, SUB_ROI_SEARCH};
use crate::transaction::{DoubleGet, DoubleGetView, SimpleGet, SimpleGetView};
use crate::transfer::{
    select_view, transfer_view, xu_get_view, CameraError, ControlTransfer, DataView, Device, Reply,
    ReplyView, TransferError, TransferView, SEL_ERROR,
};
use crate::wire::filled;

verus! {

/// One query of a survey.
#[derive(Debug, Clone, Copy, PartialEq, Eq)]
pub enum Query {
    /// A plain read.
    Plain { group: u8, sub: u8 },
    /// A timed search of the upper left quarter of the frame.
    TimedSearch,
}

/// What came of a query.
#[derive(Debug, PartialEq, Eq)]
pub enum Answer {
    Data(Vec<u8>),
    /// The query failed; `code` is the camera's error code, if it could be read.
    Failed { error: CameraError, code: Option<u8> },
}

/// Mathematical counterpart of [`Answer`].
#[verifier::ext_equal]
pub enum AnswerView {
    Data(Seq<u8>),
    Failed { error: CameraError, code: Option<u8> },
}

impl View for Answer {
    type V = AnswerView;

    open spec fn view(&self) -> AnswerView {
        match *self {
            Answer::Data(d) => AnswerView::Data(d@),
            Answer::Failed { error, code } => AnswerView::Failed { error, code },
        }
    }
}

enum Step {
    Plain(SimpleGet),
    Search(DoubleGet),
    ErrorCode(CameraError),
    Done,
}

/// Where a survey stands: reading for a query, reading the error code after a
/// failed one, or at its end.
#[verifier::ext_equal]
pub enum StepView {
    Plain(SimpleGetView),
    Search(DoubleGetView),
    ErrorCode(CameraError),
    Done,
}

impl View for Step {
    type V = StepView;

    closed spec fn view(&self) -> StepView {
        match *self {
            Step::Plain(get) => StepView::Plain(get@),
            Step::Search(get) => StepView::Search(get@),
            Step::ErrorCode(e) => StepView::ErrorCode(e),
            Step::Done => StepView::Done,
        }
    }
}

/// A survey under way.
pub struct Survey {
    queries: Vec<Query>,
    now: u64,
    step: Step,
    answers: Vec<Answer>,
}

/// Mathematical counterpart of [`Survey`]. The query under way is the one whose
/// answer comes next.
#[verifier::ext_equal]
pub struct SurveyView {
    pub queries: Seq<Query>,
    /// The time for requests that carry one, in seconds.
    pub now: nat,
    pub step: StepView,
    pub answers: Seq<AnswerView>,
}

/// Counterpart of a list of answers.
pub open spec fn answers_view(answers: Seq<Answer>) -> Seq<AnswerView> {
    answers.map_values(|a: Answer| a@)
}

impl View for Survey {
    type V = SurveyView;

    closed spec fn view(&self) -> SurveyView {
        SurveyView {
            queries: self.queries@,
            now: self.now as nat,
            step: self.step@,
            answers: answers_view(self.answers@),
        }
    }
}

/// The first state of a query.
pub open spec fn first_step(q: Query, now: nat) -> StepView {
    match q {
        Query::Plain { group, sub } => StepView::Plain(SimpleGetView::start(group, sub)),
        Query::TimedSearch => StepView::Search(
            DoubleGetView::start(
                GROUP_THERMAL,
                SUB_ROI_SEARCH,
                roi_request(CHANNEL, stamp_time(now), seq![corner_region()]),
            ),
        ),
    }
}

/// The error code that a reply holds.
pub open spec fn code_of(r: ReplyView) -> Option<u8> {
    match r {
        ReplyView::Data(d) => Some(filled(1, d)[0]),
        ReplyView::Failed(_) => None,
    }
}

impl SurveyView {
    /// The next query begins, if there is one left.
    pub open spec fn enter(self) -> SurveyView {
        let step = if self.answers.len() < self.queries.len() {
            first_step(self.queries[self.answers.len() as int], self.now)
        } else {
            StepView::Done
        };
        SurveyView { step, ..self }
    }

    pub open spec fn start(queries: Seq<Query>, now: nat) -> SurveyView {
        SurveyView { queries, now, step: StepView::Done, answers: Seq::empty() }.enter()
    }

    /// The query under way has its answer.
    pub open spec fn answered(self, a: AnswerView) -> SurveyView {
        SurveyView { answers: self.answers.push(a), ..self }.enter()
    }

    /// The query under way has ended.
    pub open spec fn finished(self, r: Result<Seq<u8>, CameraError>) -> SurveyView {
        match r {
            Ok(d) => self.answered(AnswerView::Data(d)),
            Err(e) => SurveyView { step: StepView::ErrorCode(e), ..self },
        }
    }

    /// The transfer to carry out next; none once the survey has ended.
    pub open spec fn pending(self) -> Option<TransferView> {
        match self.step {
            StepView::Plain(get) => get.pending(),
            StepView::Search(get) => get.pending(),
            StepView::ErrorCode(_) => Some(xu_get_view(SEL_ERROR, 1)),
            StepView::Done => None,
        }
    }

    /// The state after the pending transfer was answered by `r`.
    pub open spec fn after(self, r: ReplyView) -> SurveyView {
        match self.step {
            StepView::Plain(get) => {
                let next = get.after(r);
                if next.pending() is None {
                    self.finished(next.outcome())
                } else {
                    SurveyView { step: StepView::Plain(next), ..self }
                }
            },
            StepView::Search(get) => {
                let next = get.after(r);
                if next.pending() is None {
                    self.finished(next.outcome())
                } else {
                    SurveyView { step: StepView::Search(next), ..self }
                }
            },
            StepView::ErrorCode(error) => self.answered(
                AnswerView::Failed { error, code: code_of(r) },
            ),
            StepView::Done => self,
        }
    }

    /// The state after a series of replies.
    pub open spec fn run(self, replies: Seq<ReplyView>) -> SurveyView
        decreases replies.len(),
    {
        if replies.len() == 0 {
            self
        } else {
            self.run(replies.drop_last()).after(replies.last())
        }
    }

    /// What holds of every survey: it has ended exactly where every query has
    /// its answer, and until then a transfer is pending.
    pub open spec fn wf(self) -> bool {
        &&& self.answers.len() <= self.queries.len()
        &&& self.step is Done <==> self.answers.len() == self.queries.len()
        &&& self.pending() is None <==> self.step is Done
    }
}

impl Survey {
    fn enter(&mut self)
        ensures
            final(self)@ == old(self)@.enter(),
    {
        let at: usize = self.answers.len();
        if at < self.queries.len() {
            match self.queries[at] {
                Query::Plain { group, sub } => {
                    self.step = Step::Plain(Device::simple_get(group, sub));
                },
                Query::TimedSearch => {
                    let request: Vec<u8> = timed_request(self.now);
                    self.step =
                    Step::Search(
                        Device::double_get(GROUP_THERMAL, SUB_ROI_SEARCH, request.as_slice()),
                    );
                },
            }
        } else {
            self.step = Step::Done;
        }
    }

    fn answered(&mut self, a: Answer)
        ensures
            final(self)@ == old(self)@.answered(a@),
    {
        self.answers.push(a);
        assert(answers_view(self.answers@) =~= answers_view(old(self).answers@).push(a@));
        self.enter();
    }

    fn finished(&mut self, r: Result<Vec<u8>, CameraError>)
        ensures
            final(self)@ == old(self)@.finished(
                match r {
                    Ok(d) => Ok(d@),
                    Err(e) => Err(e),
                },
            ),
    {
        match r {
            Ok(d) => self.answered(Answer::Data(d)),
            Err(e) => {
                self.step = Step::ErrorCode(e);
            },
        }
    }

    /// Starts a survey; `now` counts seconds.
    pub fn new(queries: Vec<Query>, now: u64) -> (s: Survey)
        ensures
            s@ == SurveyView::start(queries@, now as nat),
    {
        let mut s = Survey { queries, now, step: Step::Done, answers: Vec::new() };
        assert(answers_view(s.answers@) =~= Seq::<AnswerView>::empty());
        s.enter();
        s
    }

    /// Tells the time, in seconds. A query that begins later uses it.
    pub fn set_time(&mut self, now: u64)
        ensures
            final(self)@ == (SurveyView { now: now as nat, ..old(self)@ }),
    {
        self.now = now;
    }

    /// The transfer to carry out next; `None` once the survey has ended.
    pub fn pending(&self) -> (t: Option<ControlTransfer>)
        ensures
            transfer_view(t) == self@.pending(),
    {
        match &self.step {
            Step::Plain(get) => get.pending(),
            Step::Search(get) => get.pending(),
            Step::ErrorCode(_) => Some(Device::xu_last_error()),
            Step::Done => None,
        }
    }

    /// Takes the reply to the pending transfer.
    pub fn reply(&mut self, reply: &Reply)
        ensures
            final(self)@ == old(self)@.after(reply@),
    {
        let mut step: Step = Step::Done;
        std::mem::swap(&mut step, &mut self.step);
        match step {
            Step::Plain(get) => {
                let mut get = get;
                get.reply(reply);
                if get.ended() {
                    self.finished(get.outcome());
                } else {
                    self.step = Step::Plain(get);
                }
            },
            Step::Search(get) => {
                let mut get = get;
                get.reply(reply);
                if get.pending().is_none() {
                    self.finished(get.outcome());
                } else {
                    self.step = Step::Search(get);
                }
            },
            Step::ErrorCode(error) => {
                self.answered(Answer::Failed { error, code: reply.error_code() });
            },
            Step::Done => {},
        }
    }

    /// The answers so far, in the order of the queries.
    pub fn answers(&self) -> (a: &Vec<Answer>)
        ensures
            answers_view(a@) == self@.answers,
    {
        &self.answers
    }
}

/// The queries of the live protocol test: device information, basic parameters,
/// mode, and a search.
pub fn therm_queries() -> (q: Vec<Query>)
    ensures
        q@ == seq![
            Query::Plain { group: 1, sub: 1 },
            Query::Plain { group: 3, sub: 1 },
            Query::Plain { group: 3, sub: 2 },
            Query::TimedSearch,
        ],
{
    let mut q: Vec<Query> = Vec::new();
    q.push(Query::Plain { group: GROUP_SYSTEM, sub: SUB_DEVICE_INFO });
    q.push(Query::Plain { group: GROUP_THERMAL, sub: SUB_BASIC_PARAM });
    q.push(Query::Plain { group: GROUP_THERMAL, sub: SUB_MODE });
    q.push(Query::TimedSearch);
    q
}

/// The query of the rules dump: the thermometry regions.
pub fn rules_queries() -> (q: Vec<Query>)
    ensures
        q@ == seq![Query::Plain { group: 3, sub: 3 }],
{
    let mut q: Vec<Query> = Vec::new();
    q.push(Query::Plain { group: GROUP_THERMAL, sub: SUB_REGIONS });
    q
}

/// The queries of the corrections dump.
pub fn correction_queries() -> (q: Vec<Query>)
    ensures
        q@ == correction_table().map_values(
            |c: (u16, u8, u8)| Query::Plain { group: c.1, sub: c.2 },
        ),
{
    let commands: Vec<(u16, u8, u8)> = correction_commands();
    let mut q: Vec<Query> = Vec::new();
    let mut i: usize = 0;
    while i < commands.len()
        invariant
            i <= commands@.len(),
            q@.len() == i,
            forall|j: int|
                0 <= j < i ==> #[trigger] q@[j] == (Query::Plain {
                    group: commands@[j].1,
                    sub: commands@[j].2,
                }),
        decreases commands@.len() - i,
    {
        q.push(Query::Plain { group: commands[i].1, sub: commands[i].2 });
        i = i + 1;
    }
    assert(q@ =~= correction_table().map_values(
        |c: (u16, u8, u8)| Query::Plain { group: c.1, sub: c.2 },
    ));
    q
}

/// Every survey is well formed whatever the camera answers, so it ends with one
/// answer per query, in the order of the queries, and asks for a transfer until
/// then.
pub proof fn law_survey_answers_all(queries: Seq<Query>, now: nat, replies: Seq<ReplyView>)
    ensures
        ({
            let s = SurveyView::start(queries, now).run(replies);
            &&& s.wf()
            &&& s.queries == queries
            &&& s.pending() is None ==> s.answers.len() == queries.len()
        }),
    decreases replies.len(),
{
    if replies.len() > 0 {
        law_survey_answers_all(queries, now, replies.drop_last());
    }
}

/// A failed transfer of a query leads to a read of the error code, and whatever
/// comes of that, the failure is noted with the code and the next query begins.
pub proof fn law_survey_goes_on(s: SurveyView, e: TransferError, r: ReplyView)
    requires
        s.pending() is Some,
        s.step !is ErrorCode,
    ensures
        ({
            let failed = s.after(ReplyView::Failed(e));
            let next = failed.after(r);
            &&& failed.step is ErrorCode
            &&& failed.pending() == Some(xu_get_view(6, 1))
            &&& failed.answers == s.answers
            &&& next.answers == s.answers.push(
                AnswerView::Failed { error: failed.step->ErrorCode_0, code: code_of(r) },
            )
            &&& next == next.enter()
        }),
{
}

/// Answers that were given stay as they are.
pub proof fn law_survey_keeps_answers(s: SurveyView, r: ReplyView)
    ensures
        s.answers.len() <= s.after(r).answers.len() <= s.answers.len() + 1,
        s.after(r).answers.take(s.answers.len() as int) == s.answers,
{
    assert(s.after(r).answers.take(s.answers.len() as int) =~= s.answers);
}

/// A plain query that goes well, from its first transfer to its answer: the
/// camera announces a length from 1 to 65536 and sends no more than that. The
/// data is the next answer, unchanged, and the query behind it begins.
pub proof fn law_survey_notes_data(
    s: SurveyView,
    group: u8,
    sub: u8,
    ack: Seq<u8>,
    len_reply: Seq<u8>,
    data: Seq<u8>,
)
    requires
        s.step == StepView::Plain(SimpleGetView::start(group, sub)),
        len_reply.len() == 4,
        data.len() <= len_reply[0] + len_reply[1] * 0x100 + len_reply[2] * 0x10000 + len_reply[3]
            * 0x1000000 <= 65536,
        1 <= len_reply[0] + len_reply[1] * 0x100 + len_reply[2] * 0x10000 + len_reply[3]
            * 0x1000000,
    ensures
        ({
            let t = s.after(ReplyView::Data(ack)).after(ReplyView::Data(len_reply)).after(
                ReplyView::Data(data),
            );
            let k = s.answers.len() as int + 1;
            &&& s.pending() == Some(select_view(group, sub))
            &&& t.answers == s.answers.push(AnswerView::Data(data))
            &&& t.queries == s.queries && t.now == s.now
            &&& k >= s.queries.len() ==> t.pending() is None
            &&& k < s.queries.len() ==> (match s.queries[k] {
                Query::Plain { group: g, sub: u } => t.pending() == Some(select_view(g, u)),
                Query::TimedSearch => t.pending() == Some(select_view(3, 10)),
            })
        }),
{
    assert(filled(4, len_reply) =~= len_reply);
}

/// A survey begins with its first query and no answers, and without queries it
/// is over at once.
pub proof fn law_survey_begins(queries: Seq<Query>, now: nat)
    ensures
        ({
            let s = SurveyView::start(queries, now);
            &&& s.queries == queries && s.now == now && s.answers.len() == 0
            &&& queries.len() == 0 ==> s.pending() is None
            &&& queries.len() > 0 ==> (match queries[0] {
                Query::Plain { group, sub } => s.pending() == Some(select_view(group, sub)),
                Query::TimedSearch => s.pending() == Some(select_view(3, 10)),
            })
        }),
{
}

/// A search of a survey: its second transfer writes the timed request to selector
/// 3, and what the exchange delivers in the end is the next answer.
pub proof fn law_survey_search(s: SurveyView, get: DoubleGetView, ack: Seq<u8>, r: ReplyView)
    requires
        s.step == StepView::Search(get),
    ensures
        get == (first_step(Query::TimedSearch, s.now)->Search_0) ==> s.after(
            ReplyView::Data(ack),
        ).pending() == Some(
            TransferView {
                request_type: 0x21,
                request: 0x01,
                value: 0x0300,
                index: 0x0a00,
                data: DataView::Out(
                    roi_request(1, stamp_time(s.now), seq![corner_region()]),
                ),
            },
        ),
        get.after(r).pending() is Some ==> s.after(r) == (SurveyView {
            step: StepView::Search(get.after(r)),
            ..s
        }),
        get.after(r).pending() is None && get.after(r).outcome() is Ok ==> s.after(r).answers
            == s.answers.push(AnswerView::Data(get.after(r).outcome()->Ok_0)),
{
}

/// A query that goes wrong: its error is noted together with the first byte that
/// the read of the error code brings, zero where none came, or without a code
/// where that read fails.
pub proof fn law_survey_notes_failure(s: SurveyView, e: TransferError, d: Seq<u8>, f: TransferError)
    requires
        s.pending() is Some,
        s.step !is ErrorCode,
    ensures
        ({
            let failed = s.after(ReplyView::Failed(e));
            let error = match s.step {
                StepView::Plain(get) => get.after(ReplyView::Failed(e)).outcome()->Err_0,
                StepView::Search(get) => get.after(ReplyView::Failed(e)).outcome()->Err_0,
                _ => CameraError::RegionCount,
            };
            &&& d.len() > 0 ==> failed.after(ReplyView::Data(d)).answers == s.answers.push(
                AnswerView::Failed { error, code: Some(d[0]) },
            )
            &&& d.len() == 0 ==> failed.after(ReplyView::Data(d)).answers == s.answers.push(
                AnswerView::Failed { error, code: Some(0) },
            )
            &&& failed.after(ReplyView::Failed(f)).answers == s.answers.push(
                AnswerView::Failed { error, code: None },
            )
        }),
{
    law_survey_goes_on(s, e, ReplyView::Data(d));
}

/// The counterparts of answers hold all of them, in order.
pub proof fn law_answer_counterparts(a: Answer, answers: Seq<Answer>, i: int)
    ensures
        match a {
            Answer::Data(d) => a@ == AnswerView::Data(d@),
            Answer::Failed { error, code } => a@ == (AnswerView::Failed { error, code }),
        },
        answers_view(answers).len() == answers.len(),
        0 <= i < answers.len() ==> answers_view(answers)[i] == answers[i]@,
{
}

/// A query goes on with its own exchange until that has ended. One that ended
/// without data is noted only once the error code was asked for, whatever the
/// reason.
pub proof fn law_survey_follows_exchange(s: SurveyView, r: ReplyView)
    ensures
        s.step matches StepView::Plain(get) ==> {
            let next = get.after(r);
            &&& next.pending() is Some ==> s.after(r) == (SurveyView {
                step: StepView::Plain(next),
                ..s
            })
            &&& next.pending() is None && next.outcome() is Ok ==> s.after(r).answers
                == s.answers.push(AnswerView::Data(next.outcome()->Ok_0))
            &&& next.pending() is None && next.outcome() is Err ==> s.after(r) == (SurveyView {
                step: StepView::ErrorCode(next.outcome()->Err_0),
                ..s
            })
        },
        s.step matches StepView::Search(get) ==> {
            let next = get.after(r);
            next.pending() is None && next.outcome() is Err ==> s.after(r) == (SurveyView {
                step: StepView::ErrorCode(next.outcome()->Err_0),
                ..s
            })
        },
        s.step matches StepView::ErrorCode(error) ==> s.pending() == Some(xu_get_view(6, 1))
            && s.after(r).answers.len() == s.answers.len() + 1 && (s.after(r).answers.last()
            matches AnswerView::Failed { error: e, code } && e == error),
{
}

} // verus!
