use crate::envelope::{decode, decode_spec, result_view, InboxMessage, MessageView};
use vstd::prelude::*;

verus! {

/// One answer of the host to a request for the next inbox message.
#[derive(Debug)]
pub enum Fetched {
    /// A raw message, in arrival order.
    Message(Vec<u8>),
    /// No message is available any more in this invocation.
    Exhausted,
    /// The host broke its contract while fetching.
    HostFailure,
}

/// The mathematical value of a [`Fetched`].
pub ghost enum FetchedView {
    Message(Seq<u8>),
    Exhausted,
    HostFailure,
}

impl View for Fetched {
    type V = FetchedView;

    open spec fn view(&self) -> FetchedView {
        match self {
            Fetched::Message(b) => FetchedView::Message(b@),
            Fetched::Exhausted => FetchedView::Exhausted,
            Fetched::HostFailure => FetchedView::HostFailure,
        }
    }
}

/// What the loop does with one answer of the host.
#[derive(Debug)]
pub enum Action {
    /// Hand the decoded message to the application and keep running.
    Deliver(InboxMessage),
    /// Drop a message that did not decode, silently, and keep running.
    Drop,
    /// End the pass normally.
    Finish,
    /// Abort the invocation.
    Abort,
}

/// The mathematical value of an [`Action`].
pub ghost enum ActionView {
    Deliver(MessageView),
    Drop,
    Finish,
    Abort,
}

impl View for Action {
    type V = ActionView;

    open spec fn view(&self) -> ActionView {
        match self {
            Action::Deliver(m) => ActionView::Deliver(m@),
            Action::Drop => ActionView::Drop,
            Action::Finish => ActionView::Finish,
            Action::Abort => ActionView::Abort,
        }
    }
}

/// How a pass over the inbox ended.
#[derive(Debug, Clone, Copy, PartialEq, Eq, Structural)]
pub enum Outcome {
    /// No message was left: the only normal end.
    Done,
    /// The host failed while fetching.
    Aborted,
}

/// The envelope that an answer of the host hands to the application, if any.
pub open spec fn accepted(f: FetchedView) -> Option<MessageView> {
    match f {
        FetchedView::Message(b) => match decode_spec(b) {
            Ok(m) => Some(m),
            Err(_) => None,
        },
        _ => None,
    }
}

/// The action that the loop takes on one answer of the host, while running.
pub open spec fn action_for(f: FetchedView) -> ActionView {
    match f {
        FetchedView::Message(b) => match decode_spec(b) {
            Ok(m) => ActionView::Deliver(m),
            Err(_) => ActionView::Drop,
        },
        FetchedView::Exhausted => ActionView::Finish,
        FetchedView::HostFailure => ActionView::Abort,
    }
}

/// Decides what to do with one answer of the host: a message that decodes is
/// delivered, one that does not is dropped, the end of the inbox finishes the
/// pass and a host failure aborts it.
pub fn next_action(fetched: &Fetched) -> (r: Action)
    ensures
        r@ == action_for(fetched@),
{
    match fetched {
        Fetched::Message(b) => {
            let d = decode(b.as_slice());
            proof {
                assert(result_view(d) == decode_spec(b@));
            }
            match d {
                Ok(m) => Action::Deliver(m),
                Err(_) => Action::Drop,
            }
        },
        Fetched::Exhausted => Action::Finish,
        Fetched::HostFailure => Action::Abort,
    }
}


/// The result of a pass over a recorded inbox.
#[derive(Debug)]
pub struct Run {
    /// The messages handed to the application, in the order they were handed.
    pub delivered: Vec<InboxMessage>,
    /// How the pass ended.
    pub outcome: Outcome,
}

/// The mathematical value of a [`Run`].
pub ghost struct RunView {
    pub delivered: Seq<MessageView>,
    pub outcome: Outcome,
}

/// The values of a sequence of envelopes.
pub open spec fn messages_view(v: Seq<InboxMessage>) -> Seq<MessageView> {
    v.map_values(|m: InboxMessage| m@)
}

impl View for Run {
    type V = RunView;

    open spec fn view(&self) -> RunView {
        RunView { delivered: messages_view(self.delivered@), outcome: self.outcome }
    }
}

/// The values of a recorded sequence of host answers.
pub open spec fn inbox_view(inbox: Seq<Fetched>) -> Seq<FetchedView> {
    inbox.map_values(|f: Fetched| f@)
}

/// The envelopes handed on for the answers `s`, in order.
pub open spec fn delivered_of(s: Seq<FetchedView>) -> Seq<MessageView> {
    s.filter_map(|f: FetchedView| accepted(f))
}

/// The number of answers, from the first, that are messages: the pass ends on
/// the answer after them, or when the answers run out.
pub open spec fn pass_len(s: Seq<FetchedView>) -> nat
    decreases s.len(),
{
    if s.len() == 0 {
        0
    } else if s[0] is Message {
        1 + pass_len(s.drop_first())
    } else {
        0
    }
}

/// A pass over the answers `s`: every message up to the first answer that is
/// not one is decoded and, where it decodes, delivered; a host failure there
/// aborts, and anything else ends the pass normally.
pub open spec fn run_spec(s: Seq<FetchedView>) -> RunView {
    let k = pass_len(s);
    RunView {
        delivered: delivered_of(s.take(k as int)),
        outcome: if k < s.len() && s[k as int] is HostFailure {
            Outcome::Aborted
        } else {
            Outcome::Done
        },
    }
}

/// `pass_len` is the index of the first answer that is not a message.
proof fn lemma_pass_len(s: Seq<FetchedView>, i: int)
    requires
        0 <= i <= s.len(),
        forall|j: int| 0 <= j < i ==> s[j] is Message,
        i == s.len() || !(s[i] is Message),
    ensures
        pass_len(s) == i,
    decreases i,
{
    if i > 0 {
        let t = s.drop_first();
        assert forall|j: int| 0 <= j < i - 1 implies t[j] is Message by {
            assert(t[j] == s[j + 1]);
        }
        if i < s.len() {
            assert(t[i - 1] == s[i]);
        }
        lemma_pass_len(t, i - 1);
    }
}

/// Runs the loop over a recorded inbox, whose end stands for the host having no
/// message left: each message is decoded, delivered if it decodes and dropped if
/// not, until the host has no message left or fails.
pub fn run(inbox: &Vec<Fetched>) -> (r: Run)
    ensures
        r@ == run_spec(inbox_view(inbox@)),
{
    let ghost s = inbox_view(inbox@);
    let mut delivered: Vec<InboxMessage> = Vec::new();
    let mut i: usize = 0;
    while i < inbox.len()
        invariant
            i <= inbox@.len(),
            s == inbox_view(inbox@),
            forall|j: int| 0 <= j < i ==> s[j] is Message,
            messages_view(delivered@) == delivered_of(s.take(i as int)),
        decreases inbox@.len() - i,
    {
        let action = next_action(&inbox[i]);
        let ghost before = delivered@;
        proof {
            assert(s[i as int] == inbox@[i as int]@);
            assert(s.take(i + 1).drop_last() =~= s.take(i as int));
        }
        match action {
            Action::Deliver(m) => {
                delivered.push(m);
                proof {
                    assert(messages_view(delivered@) =~= messages_view(before).push(m@));
                }
            },
            Action::Drop => {},
            Action::Finish => {
                proof {
                    lemma_pass_len(s, i as int);
                }
                return Run { delivered, outcome: Outcome::Done };
            },
            Action::Abort => {
                proof {
                    lemma_pass_len(s, i as int);
                }
                return Run { delivered, outcome: Outcome::Aborted };
            },
        }
        i = i + 1;
    }
    proof {
        lemma_pass_len(s, i as int);
    }
    Run { delivered, outcome: Outcome::Done }
}


/// Whether an answer of the host is a message that decodes.
pub open spec fn well_formed(f: FetchedView) -> bool {
    accepted(f) is Some
}

/// The envelope that a well-formed message decodes to.
pub open spec fn decoded(f: FetchedView) -> MessageView {
    match accepted(f) {
        Some(m) => m,
        None => arbitrary(),
    }
}

/// The well-formed messages among the answers `s`, in order.
pub open spec fn well_formed_messages(s: Seq<FetchedView>) -> Seq<FetchedView> {
    s.filter(|f: FetchedView| well_formed(f))
}

/// The envelopes of a sequence of well-formed messages.
pub open spec fn decoded_all(s: Seq<FetchedView>) -> Seq<MessageView> {
    s.map_values(|f: FetchedView| decoded(f))
}

/// The envelopes handed on are those of the well-formed messages, in order.
proof fn lemma_delivered_are_well_formed(s: Seq<FetchedView>)
    ensures
        delivered_of(s) == decoded_all(well_formed_messages(s)),
    decreases s.len(),
{
    reveal(Seq::filter);
    if s.len() == 0 {
        assert(decoded_all(well_formed_messages(s)) =~= Seq::<MessageView>::empty());
    } else {
        let t = s.drop_last();
        lemma_delivered_are_well_formed(t);
        if well_formed(s.last()) {
            assert(well_formed_messages(s) == well_formed_messages(t).push(s.last()));
            assert(decoded_all(well_formed_messages(s)) =~= decoded_all(well_formed_messages(t)).push(
                decoded(s.last()),
            ));
        } else {
            assert(well_formed_messages(s) == well_formed_messages(t));
        }
    }
}

/// A pass over an inbox that holds messages only ends normally and hands on
/// exactly the well-formed messages, one envelope each, in arrival order,
/// wherever the malformed ones stand between them.
pub proof fn lemma_pass_delivers_each_well_formed_message(s: Seq<FetchedView>)
    requires
        forall|j: int| 0 <= j < s.len() ==> s[j] is Message,
    ensures
        run_spec(s).outcome == Outcome::Done,
        run_spec(s).delivered == decoded_all(well_formed_messages(s)),
        run_spec(s).delivered.len() == well_formed_messages(s).len(),
{
    lemma_pass_len(s, s.len() as int);
    assert(s.take(s.len() as int) =~= s);
    lemma_delivered_are_well_formed(s);
}

/// A host failure ends the pass at once: the pass aborts having delivered the
/// well-formed messages before it, and no answer after it is ever looked at.
pub proof fn lemma_host_failure_aborts(before: Seq<FetchedView>, after: Seq<FetchedView>)
    requires
        forall|j: int| 0 <= j < before.len() ==> before[j] is Message,
    ensures
        run_spec(before + seq![FetchedView::HostFailure] + after) == (RunView {
            delivered: decoded_all(well_formed_messages(before)),
            outcome: Outcome::Aborted,
        }),
{
    let s = before + seq![FetchedView::HostFailure] + after;
    assert forall|j: int| 0 <= j < before.len() implies s[j] is Message by {
        assert(s[j] == before[j]);
    }
    assert(s[before.len() as int] == FetchedView::HostFailure);
    lemma_pass_len(s, before.len() as int);
    assert(s.take(before.len() as int) =~= before);
    lemma_delivered_are_well_formed(before);
}

} // verus!
