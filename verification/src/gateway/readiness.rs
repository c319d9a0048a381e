//! Waiting for a gateway process that was started to become healthy.

use vstd::prelude::*;

use crate::gateway::service::READINESS_TIMEOUT_MILLIS;
use crate::text;
use crate::text::{decimal, joined};

verus! {

/// What the operating system says of the process: that it runs, that it ended with
/// a status, or why this is not known.
pub enum ProcessReport {
    Running,
    Exited(String),
    Failed(String),
}

/// What is to be found out next, or what came of the waiting.
pub enum Readiness {
    CheckTime,
    Probe,
    CheckProcess,
    Sleep,
    Done(Result<(), String>),
}

/// What was found out: the time since the waiting began in milliseconds, whether
/// the gateway is healthy, what the process does, or that the pause is over.
pub enum ReadinessEvent {
    Elapsed(u64),
    Health(bool),
    Process(ProcessReport),
    Slept,
}

/// The mathematical view of what is to be found out next.
pub enum ReadinessView {
    CheckTime,
    Probe,
    CheckProcess,
    Sleep,
    Done(Result<(), Seq<char>>),
}

/// The mathematical view of what the operating system says of the process.
pub enum ProcessView {
    Running,
    Exited(Seq<char>),
    Failed(Seq<char>),
}

/// The mathematical view of what was found out.
pub enum ReadinessEventView {
    Elapsed(u64),
    Health(bool),
    Process(ProcessView),
    Slept,
}

impl View for ProcessReport {
    type V = ProcessView;

    open spec fn view(&self) -> ProcessView {
        match *self {
            ProcessReport::Running => ProcessView::Running,
            ProcessReport::Exited(status) => ProcessView::Exited(status@),
            ProcessReport::Failed(reason) => ProcessView::Failed(reason@),
        }
    }
}

impl View for Readiness {
    type V = ReadinessView;

    open spec fn view(&self) -> ReadinessView {
        match *self {
            Readiness::CheckTime => ReadinessView::CheckTime,
            Readiness::Probe => ReadinessView::Probe,
            Readiness::CheckProcess => ReadinessView::CheckProcess,
            Readiness::Sleep => ReadinessView::Sleep,
            Readiness::Done(Ok(_)) => ReadinessView::Done(Ok(())),
            Readiness::Done(Err(reason)) => ReadinessView::Done(Err(reason@)),
        }
    }
}

impl View for ReadinessEvent {
    type V = ReadinessEventView;

    open spec fn view(&self) -> ReadinessEventView {
        match *self {
            ReadinessEvent::Elapsed(millis) => ReadinessEventView::Elapsed(millis),
            ReadinessEvent::Health(healthy) => ReadinessEventView::Health(healthy),
            ReadinessEvent::Process(report) => ReadinessEventView::Process(report@),
            ReadinessEvent::Slept => ReadinessEventView::Slept,
        }
    }
}

/// What is told where the gateway did not become healthy in time.
pub open spec fn timeout_message(health_url: Seq<char>) -> Seq<char> {
    "NeXT AI Gateway did not become healthy at "@ + health_url + " within "@ + text::decimal_text(
        (READINESS_TIMEOUT_MILLIS / 1000) as nat,
    ) + " seconds"@
}

/// What is told where the process ended with a status.
pub open spec fn exit_message(status: Seq<char>) -> Seq<char> {
    "NeXT AI Gateway exited before it became healthy (status "@ + status + ")"@
}

/// What is to be found out after something was found out. Something that was not
/// asked for changes nothing.
pub open spec fn next_readiness(
    step: ReadinessView,
    event: ReadinessEventView,
    health_url: Seq<char>,
) -> ReadinessView {
    match (step, event) {
        (ReadinessView::CheckTime, ReadinessEventView::Elapsed(millis)) => if millis
            < READINESS_TIMEOUT_MILLIS {
            ReadinessView::Probe
        } else {
            ReadinessView::Done(Err(timeout_message(health_url)))
        },
        (ReadinessView::Probe, ReadinessEventView::Health(healthy)) => if healthy {
            ReadinessView::Done(Ok(()))
        } else {
            ReadinessView::CheckProcess
        },
        (ReadinessView::CheckProcess, ReadinessEventView::Process(report)) => match report {
            ProcessView::Running => ReadinessView::Sleep,
            ProcessView::Exited(status) => ReadinessView::Done(Err(exit_message(status))),
            ProcessView::Failed(reason) => ReadinessView::Done(Err(reason)),
        },
        (ReadinessView::Sleep, ReadinessEventView::Slept) => ReadinessView::CheckTime,
        _ => step,
    }
}

/// What is to be found out after something was found out.
pub fn wait_until_ready(step: Readiness, event: ReadinessEvent, health_url: &str) -> (r: Readiness)
    ensures
        r@ == next_readiness(step@, event@, health_url@),
{
    match (step, event) {
        (Readiness::CheckTime, ReadinessEvent::Elapsed(millis)) => {
            if millis < READINESS_TIMEOUT_MILLIS {
                Readiness::Probe
            } else {
                let mut message = joined("NeXT AI Gateway did not become healthy at ", health_url);
                message.append(" within ");
                message.append(decimal(READINESS_TIMEOUT_MILLIS / 1000).as_str());
                message.append(" seconds");
                Readiness::Done(Err(message))
            }
        },
        (Readiness::Probe, ReadinessEvent::Health(healthy)) => {
            if healthy {
                Readiness::Done(Ok(()))
            } else {
                Readiness::CheckProcess
            }
        },
        (Readiness::CheckProcess, ReadinessEvent::Process(report)) => match report {
            ProcessReport::Running => Readiness::Sleep,
            ProcessReport::Exited(status) => {
                let mut message = joined(
                    "NeXT AI Gateway exited before it became healthy (status ",
                    status.as_str(),
                );
                message.append(")");
                Readiness::Done(Err(message))
            },
            ProcessReport::Failed(reason) => Readiness::Done(Err(reason)),
        },
        (Readiness::Sleep, ReadinessEvent::Slept) => Readiness::CheckTime,
        (step, _) => step,
    }
}

/// Where the waiting stands after some things were found out.
pub open spec fn after_readiness(events: Seq<ReadinessEventView>, health_url: Seq<char>) -> ReadinessView
    decreases events.len(),
{
    if events.len() == 0 {
        ReadinessView::CheckTime
    } else {
        next_readiness(
            after_readiness(events.drop_last(), health_url),
            events.last(),
            health_url,
        )
    }
}

/// The waiting succeeds only where the gateway was found healthy, and it looks for
/// that only after the time was found not to be over.
pub proof fn law_ready_means_healthy(events: Seq<ReadinessEventView>, health_url: Seq<char>)
    ensures
        after_readiness(events, health_url) == ReadinessView::Done(Ok::<(), Seq<char>>(()))
            ==> events.contains(ReadinessEventView::Health(true)) && exists|i: int|
            0 <= i < events.len() && (#[trigger] events[i] matches ReadinessEventView::Elapsed(
                millis,
            ) && millis < READINESS_TIMEOUT_MILLIS),
        after_readiness(events, health_url) is Probe || after_readiness(events, health_url) is CheckProcess
            || after_readiness(events, health_url) is Sleep ==> exists|i: int|
            0 <= i < events.len() && (#[trigger] events[i] matches ReadinessEventView::Elapsed(
                millis,
            ) && millis < READINESS_TIMEOUT_MILLIS),
    decreases events.len(),
{
    if events.len() > 0 {
        let before = events.drop_last();
        law_ready_means_healthy(before, health_url);
        assert(events[events.len() - 1] == events.last());
        if before.contains(ReadinessEventView::Health(true)) {
            let i = choose|i: int|
                0 <= i < before.len() && before[i] == ReadinessEventView::Health(true);
            assert(events[i] == ReadinessEventView::Health(true));
        }
        if exists|i: int|
            0 <= i < before.len() && (#[trigger] before[i] matches ReadinessEventView::Elapsed(
                millis,
            ) && millis < READINESS_TIMEOUT_MILLIS) {
            let i = choose|i: int|
                0 <= i < before.len() && (#[trigger] before[i] matches ReadinessEventView::Elapsed(
                    millis,
                ) && millis < READINESS_TIMEOUT_MILLIS);
            assert(events[i] == before[i]);
        }
    }
}

/// What came of the waiting is not changed by what is found out later.
pub proof fn law_done_is_final(step: ReadinessView, event: ReadinessEventView, health_url: Seq<char>)
    requires
        step is Done,
    ensures
        next_readiness(step, event, health_url) == step,
{
}

/// Within fifteen seconds the gateway is asked how it is, and is ready where it is
/// healthy.
pub proof fn law_healthy_in_time(millis: u64, health_url: Seq<char>)
    requires
        millis < 15000,
    ensures
        ({
            let probe = next_readiness(
                ReadinessView::CheckTime,
                ReadinessEventView::Elapsed(millis),
                health_url,
            );
            next_readiness(probe, ReadinessEventView::Health(true), health_url)
                == ReadinessView::Done(Ok::<(), Seq<char>>(()))
        }),
{
}

/// A gateway that is not healthy yet, but whose process runs, is asked again after a
/// pause; one whose process ended is given up with the status, and one whose process
/// cannot be asked with the reason.
pub proof fn law_unhealthy_round(millis: u64, status: Seq<char>, health_url: Seq<char>)
    requires
        millis < 15000,
    ensures
        ({
            let probe = next_readiness(
                ReadinessView::CheckTime,
                ReadinessEventView::Elapsed(millis),
                health_url,
            );
            let check = next_readiness(probe, ReadinessEventView::Health(false), health_url);
            let pause = next_readiness(
                check,
                ReadinessEventView::Process(ProcessView::Running),
                health_url,
            );
            &&& pause is Sleep
            &&& next_readiness(pause, ReadinessEventView::Slept, health_url) is CheckTime
            &&& next_readiness(
                check,
                ReadinessEventView::Process(ProcessView::Exited(status)),
                health_url,
            ) == ReadinessView::Done(
                Err::<(), Seq<char>>(
                    "NeXT AI Gateway exited before it became healthy (status "@ + status + ")"@,
                ),
            )
            &&& next_readiness(
                check,
                ReadinessEventView::Process(ProcessView::Failed(status)),
                health_url,
            ) == ReadinessView::Done(Err::<(), Seq<char>>(status))
        }),
{
}

/// After fifteen seconds the waiting is given up, with the URL in the message.
pub proof fn law_time_is_over(millis: u64, health_url: Seq<char>)
    requires
        millis >= 15000,
    ensures
        next_readiness(
            ReadinessView::CheckTime,
            ReadinessEventView::Elapsed(millis),
            health_url,
        ) == ReadinessView::Done(
            Err::<(), Seq<char>>(
                "NeXT AI Gateway did not become healthy at "@ + health_url + " within 15 seconds"@,
            ),
        ),
{
    reveal_strlit(" within ");
    reveal_strlit(" seconds");
    reveal_strlit(" within 15 seconds");
    reveal_with_fuel(text::decimal_text, 3);
    let number = text::decimal_text(15);
    assert(number =~= seq!['1', '5']);
    let start = "NeXT AI Gateway did not become healthy at "@ + health_url;
    assert(start + " within "@ + number + " seconds"@ =~= start + " within 15 seconds"@);
}

/// What was found out counts exactly where it was to be found out.
pub proof fn law_only_findings_count(
    step: ReadinessView,
    event: ReadinessEventView,
    health_url: Seq<char>,
)
    ensures
        next_readiness(step, event, health_url) != step <==> (match event {
            ReadinessEventView::Elapsed(_) => step is CheckTime,
            ReadinessEventView::Health(_) => step is Probe,
            ReadinessEventView::Process(_) => step is CheckProcess,
            ReadinessEventView::Slept => step is Sleep,
        }),
{
}

} // verus!
