//! The per-connection session state machine. A session starts idle, a
//! `START_RECORDING` puts it into the recording state, a `STOP_RECORDING`
//! while recording stops the recorder, hands the captured audio to the
//! transcriber, and answers with the transcription; the transition table is
//! `next_state`. A `START_RECORDING` received while already recording
//! restarts the capture: the recorder's `start` is invoked again and the
//! session stays in the recording state. Capability failures are not turned
//! into protocol replies: they come back as `Err` and the caller is expected
//! to drop the connection.

use vstd::prelude::*;

use crate::capabilities::{
    recorder_untouched, transcriber_untouched, CapabilityError, Recorder, Transcriber,
};
use crate::protocol::{lines_spec, parse_spec, split_lines, Command};

verus! {

/// The transition table of the session state machine, over the recording
/// flag: a start command always leaves the session recording, a stop command
/// always leaves it idle, and an unknown command never changes the state.
pub open spec fn next_state(recording: bool, cmd: Command) -> bool {
    match cmd {
        Command::Start => true,
        Command::Stop => false,
        Command::Unknown => recording,
    }
}

/// How many of the given lines carry the start command: how often a full
/// run over them invokes the recorder's `start`.
pub open spec fn start_count(lines: Seq<Seq<char>>) -> nat
    decreases lines.len(),
{
    if lines.len() == 0 {
        0
    } else {
        (if parse_spec(lines.first()) is Start {
            1nat
        } else {
            0nat
        }) + start_count(lines.drop_first())
    }
}

/// How many of the given lines carry a stop command that arrives while a
/// recording is active, starting from the given state: how often a full run
/// over them invokes the recorder's `stop` and the transcriber.
pub open spec fn stop_count(recording: bool, lines: Seq<Seq<char>>) -> nat
    decreases lines.len(),
{
    if lines.len() == 0 {
        0
    } else {
        let rest = lines.drop_first();
        match parse_spec(lines.first()) {
            Command::Start => stop_count(true, rest),
            Command::Stop => if recording {
                1 + stop_count(false, rest)
            } else {
                stop_count(false, rest)
            },
            Command::Unknown => stop_count(recording, rest),
        }
    }
}

/// The response lines a session in the given state owes for the given input
/// lines, one response per line and in the same order, when every capability
/// call succeeds: `texts` are the transcriptions the transcriber returns, in
/// order, consumed one per stop command that arrives while recording.
pub open spec fn run_model(recording: bool, lines: Seq<Seq<char>>, texts: Seq<Seq<char>>) -> Seq<
    Seq<char>,
>
    decreases lines.len(),
{
    if lines.len() == 0 {
        Seq::empty()
    } else {
        let rest = lines.drop_first();
        match parse_spec(lines.first()) {
            Command::Start => seq!["Recording started."@] + run_model(true, rest, texts),
            Command::Stop => if recording {
                seq![texts.first()] + run_model(false, rest, texts.drop_first())
            } else {
                seq!["No recording in progress."@] + run_model(false, rest, texts)
            },
            Command::Unknown => seq!["Unknown command."@] + run_model(recording, rest, texts),
        }
    }
}

/// One connection's state: whether a recording is active. Created when a
/// connection is accepted, mutated only by the two recording commands,
/// discarded when the connection ends.
pub struct Session {
    recording_active: bool,
}

impl Session {
    /// Whether a recording is active on this session.
    pub closed spec fn recording(self) -> bool {
        self.recording_active
    }

    /// A fresh session: no recording is active.
    pub fn new() -> (s: Session)
        ensures
            !s.recording(),
    {
        Session { recording_active: false }
    }

    /// Whether a recording is active on this session.
    pub fn is_recording(&self) -> (r: bool)
        ensures
            r == self.recording(),
    {
        self.recording_active
    }

    /// Handles one input line and returns the one response line owed for
    /// it, or the capability error that terminates the session.
    ///
    /// The contract walks the transition table. A start command invokes the
    /// recorder's `start` exactly once and, on success, answers
    /// `"Recording started."`; a stop command while recording invokes the
    /// recorder's `stop` exactly once and, if a buffer came back, hands
    /// exactly that buffer to the transcriber and answers with the returned
    /// transcription; a stop command while idle answers
    /// `"No recording in progress."`; any other line answers
    /// `"Unknown command."`. An `Err` comes back exactly when an invoked
    /// capability failed, and then the logs show which call failed and the
    /// untouched capabilities were never invoked.
    pub fn handle_line<R: Recorder, T: Transcriber>(
        &mut self,
        line: &str,
        recorder: &mut R,
        transcriber: &mut T,
    ) -> (r: Result<String, CapabilityError>)
        ensures
            r is Ok ==> final(self).recording() == next_state(
                old(self).recording(),
                parse_spec(line@),
            ),
            (match parse_spec(line@) {
                Command::Start => {
                    &&& final(recorder).starts() == old(recorder).starts() + 1
                    &&& final(recorder).stops() == old(recorder).stops()
                    &&& final(recorder).captures() == old(recorder).captures()
                    &&& transcriber_untouched(*old(transcriber), *final(transcriber))
                    &&& (r is Ok <==> final(recorder).start_oks() == old(recorder).start_oks()
                        + 1)
                    &&& (r is Err ==> final(recorder).start_oks() == old(recorder).start_oks())
                    &&& (r is Ok ==> r->Ok_0@ == "Recording started."@)
                    &&& (r is Err ==> *final(self) == *old(self))
                },
                Command::Stop => {
                    if old(self).recording() {
                        &&& final(recorder).stops() == old(recorder).stops() + 1
                        &&& final(recorder).starts() == old(recorder).starts()
                        &&& final(recorder).start_oks() == old(recorder).start_oks()
                        &&& (final(recorder).captures() == old(recorder).captures() ==> {
                            &&& r is Err
                            &&& *final(self) == *old(self)
                            &&& transcriber_untouched(*old(transcriber), *final(transcriber))
                        })
                        &&& (final(recorder).captures() != old(recorder).captures() ==> {
                            &&& final(recorder).captures() == old(recorder).captures().push(
                                final(recorder).captures().last(),
                            )
                            &&& !final(self).recording()
                            &&& final(transcriber).requests() == old(transcriber).requests().push(
                                final(recorder).captures().last(),
                            )
                            &&& (r is Ok <==> final(transcriber).outputs().len() == old(
                                transcriber,
                            ).outputs().len() + 1)
                            &&& (r is Ok ==> final(transcriber).outputs() == old(
                                transcriber,
                            ).outputs().push(r->Ok_0@))
                            &&& (r is Err ==> final(transcriber).outputs() == old(
                                transcriber,
                            ).outputs())
                        })
                    } else {
                        &&& r is Ok
                        &&& r->Ok_0@ == "No recording in progress."@
                        &&& *final(self) == *old(self)
                        &&& recorder_untouched(*old(recorder), *final(recorder))
                        &&& transcriber_untouched(*old(transcriber), *final(transcriber))
                    }
                },
                Command::Unknown => {
                    &&& r is Ok
                    &&& r->Ok_0@ == "Unknown command."@
                    &&& *final(self) == *old(self)
                    &&& recorder_untouched(*old(recorder), *final(recorder))
                    &&& transcriber_untouched(*old(transcriber), *final(transcriber))
                },
            }),
    {
        let cmd = crate::protocol::parse_command(line);
        match cmd {
            Command::Start => {
                match recorder.start() {
                    Ok(()) => {
                        self.recording_active = true;
                        Ok("Recording started.".to_owned())
                    },
                    Err(e) => Err(e),
                }
            },
            Command::Stop => {
                if self.recording_active {
                    match recorder.stop() {
                        Ok(audio) => {
                            proof {
                                assert(recorder.captures().len() == old(recorder).captures().len()
                                    + 1);
                            }
                            self.recording_active = false;
                            transcriber.transcribe(&audio)
                        },
                        Err(e) => Err(e),
                    }
                } else {
                    Ok("No recording in progress.".to_owned())
                }
            },
            Command::Unknown => Ok("Unknown command.".to_owned()),
        }
    }
}

/// Every run answers exactly one response line per input line, in input
/// order: the response at an index answers the input line at that index, so
/// responses are never reordered, dropped or batched.
pub proof fn lemma_one_response_per_line(
    recording: bool,
    lines: Seq<Seq<char>>,
    texts: Seq<Seq<char>>,
)
    ensures
        run_model(recording, lines, texts).len() == lines.len(),
    decreases lines.len(),
{
    if lines.len() > 0 {
        let rest = lines.drop_first();
        match parse_spec(lines.first()) {
            Command::Start => lemma_one_response_per_line(true, rest, texts),
            Command::Stop => {
                if recording {
                    lemma_one_response_per_line(false, rest, texts.drop_first());
                } else {
                    lemma_one_response_per_line(false, rest, texts);
                }
            },
            Command::Unknown => lemma_one_response_per_line(recording, rest, texts),
        }
    }
}

/// A start command followed by a stop command leaves the session idle
/// again, whatever state it began in; a further stop command is therefore
/// answered with the no-recording reply, while the stop of the pair itself
/// is answered with the transcription.
pub proof fn lemma_stop_after_pair(
    recording0: bool,
    start_line: Seq<char>,
    stop_line: Seq<char>,
    again: Seq<char>,
    texts: Seq<Seq<char>>,
)
    requires
        parse_spec(start_line) is Start,
        parse_spec(stop_line) is Stop,
        parse_spec(again) is Stop,
    ensures
        next_state(next_state(recording0, parse_spec(start_line)), parse_spec(stop_line))
            == false,
        run_model(false, seq![start_line, stop_line, again], texts) == seq![
            "Recording started."@,
            texts.first(),
            "No recording in progress."@,
        ],
{
    reveal_with_fuel(run_model, 4);
    let lines = seq![start_line, stop_line, again];
    assert(lines.drop_first() =~= seq![stop_line, again]);
    assert(seq![stop_line, again].drop_first() =~= seq![again]);
    assert(seq![again].drop_first() =~= Seq::<Seq<char>>::empty());
    assert(run_model(false, lines, texts) =~= seq![
        "Recording started."@,
        texts.first(),
        "No recording in progress."@,
    ]);
}

/// Drives one whole connection whose incoming bytes are already in memory:
/// splits `input` into its complete lines, feeds each line in order to a
/// fresh session, and collects one response line per input line, in the same
/// order. The first capability failure stops the run and comes back as
/// `Err`; no further line is processed.
///
/// On success the responses are exactly `run_model` over the lines of the
/// input and the texts the transcriber produced during the run; the recorder
/// was started once per start command, stopped once per stop command that
/// arrived while recording, and the transcriber was handed exactly the
/// captured buffers, in capture order. An `Err` comes back only when some
/// capability invocation failed, as the logs then show.
pub fn run_session<R: Recorder, T: Transcriber>(
    input: &str,
    recorder: &mut R,
    transcriber: &mut T,
) -> (r: Result<Vec<String>, CapabilityError>)
    ensures
        r is Ok ==> ({
            let lines = lines_spec(input@);
            let texts = final(transcriber).outputs().skip(
                old(transcriber).outputs().len() as int,
            );
            &&& final(recorder).starts() == old(recorder).starts() + start_count(lines)
            &&& final(recorder).start_oks() == old(recorder).start_oks() + start_count(lines)
            &&& final(recorder).stops() == old(recorder).stops() + stop_count(false, lines)
            &&& final(recorder).captures().len() == old(recorder).captures().len() + stop_count(
                false,
                lines,
            )
            &&& final(recorder).captures().take(old(recorder).captures().len() as int)
                == old(recorder).captures()
            &&& final(transcriber).requests() == old(transcriber).requests()
                + final(recorder).captures().skip(old(recorder).captures().len() as int)
            &&& final(transcriber).outputs().len() == old(transcriber).outputs().len()
                + stop_count(false, lines)
            &&& final(transcriber).outputs().take(old(transcriber).outputs().len() as int)
                == old(transcriber).outputs()
            &&& r->Ok_0.deep_view() == run_model(false, lines, texts)
        }),
        r is Err ==> ({
            ||| final(recorder).starts() - old(recorder).starts() > final(recorder).start_oks()
                - old(recorder).start_oks()
            ||| final(recorder).stops() - old(recorder).stops() > final(recorder).captures().len()
                - old(recorder).captures().len()
            ||| final(transcriber).requests().len() - old(transcriber).requests().len()
                > final(transcriber).outputs().len() - old(transcriber).outputs().len()
        }),
{
    let lines = split_lines(input);
    let ghost all = lines.deep_view();
    let mut session = Session::new();
    let mut responses: Vec<String> = Vec::new();
    let mut i: usize = 0;
    proof {
        assert(all.skip(0) =~= all);
        assert(responses.deep_view() =~= Seq::<Seq<char>>::empty());
        assert(recorder.captures().take(recorder.captures().len() as int) =~= recorder.captures());
        assert(recorder.captures().skip(recorder.captures().len() as int)
            =~= Seq::<Seq<u8>>::empty());
        assert(transcriber.requests() + Seq::<Seq<u8>>::empty() =~= transcriber.requests());
        assert(transcriber.outputs().take(transcriber.outputs().len() as int)
            =~= transcriber.outputs());
        assert forall|t: Seq<Seq<char>>|
            #[trigger] run_model(
                false,
                all,
                transcriber.outputs().skip(transcriber.outputs().len() as int) + t,
            ) == responses.deep_view() + run_model(session.recording(), all.skip(0), t) by {
            assert(transcriber.outputs().skip(transcriber.outputs().len() as int) + t =~= t);
            assert(Seq::<Seq<char>>::empty() + run_model(false, all, t) =~= run_model(
                false,
                all,
                t,
            ));
        }
    }
    while i < lines.len()
        invariant
            0 <= i <= lines.len(),
            lines.deep_view() == all,
            all == lines_spec(input@),
            all.len() == lines@.len(),
            start_count(all) == recorder.starts() - old(recorder).starts() + start_count(
                all.skip(i as int),
            ),
            recorder.start_oks() - old(recorder).start_oks() == recorder.starts() - old(
                recorder,
            ).starts(),
            stop_count(false, all) == recorder.stops() - old(recorder).stops() + stop_count(
                session.recording(),
                all.skip(i as int),
            ),
            recorder.captures().len() - old(recorder).captures().len() == recorder.stops() - old(
                recorder,
            ).stops(),
            old(recorder).captures().len() <= recorder.captures().len(),
            recorder.captures().take(old(recorder).captures().len() as int) == old(
                recorder,
            ).captures(),
            transcriber.requests() == old(transcriber).requests() + recorder.captures().skip(
                old(recorder).captures().len() as int,
            ),
            transcriber.outputs().len() - old(transcriber).outputs().len() == recorder.stops()
                - old(recorder).stops(),
            old(transcriber).outputs().len() <= transcriber.outputs().len(),
            transcriber.outputs().take(old(transcriber).outputs().len() as int) == old(
                transcriber,
            ).outputs(),
            forall|t: Seq<Seq<char>>|
                #[trigger] run_model(
                    false,
                    all,
                    transcriber.outputs().skip(old(transcriber).outputs().len() as int) + t,
                ) == responses.deep_view() + run_model(
                    session.recording(),
                    all.skip(i as int),
                    t,
                ),
        decreases lines.len() - i,
    {
        let ghost rem = all.skip(i as int);
        let ghost st0 = session.recording();
        let ghost rec0 = *recorder;
        let ghost tr0 = *transcriber;
        let ghost resp0 = responses.deep_view();
        let ghost consumed0 = tr0.outputs().skip(old(transcriber).outputs().len() as int);
        proof {
            assert(rem.first() == all[i as int]);
            assert(all[i as int] == lines@[i as int]@);
            assert(rem.drop_first() =~= all.skip(i as int + 1));
        }
        let res = session.handle_line(lines[i].as_str(), recorder, transcriber);
        let ghost rest = all.skip(i as int + 1);
        let ghost cmd = parse_spec(all[i as int]);
        let text = match res {
            Ok(text) => text,
            Err(e) => {
                proof {
                    if cmd is Start {
                        assert(recorder.starts() - old(recorder).starts() > recorder.start_oks()
                            - old(recorder).start_oks());
                    } else {
                        assert(cmd is Stop && st0);
                        if recorder.captures() == rec0.captures() {
                            assert(recorder.stops() - old(recorder).stops()
                                > recorder.captures().len() - old(recorder).captures().len());
                        } else {
                            assert(tr0.requests().len() == old(transcriber).requests().len() + (
                            rec0.captures().len() - old(recorder).captures().len()));
                            assert(transcriber.requests().len() == tr0.requests().len() + 1);
                            assert(transcriber.outputs() == tr0.outputs());
                            assert(transcriber.requests().len() - old(
                                transcriber,
                            ).requests().len() > transcriber.outputs().len() - old(
                                transcriber,
                            ).outputs().len());
                        }
                    }
                }
                return Err(e);
            },
        };
        let ghost tv = text@;
        responses.push(text);
        proof {
            let respv = resp0.push(tv);
            assert(responses.deep_view() =~= respv);
            let st1 = session.recording();
            let consumed1 = transcriber.outputs().skip(old(transcriber).outputs().len() as int);
            match cmd {
                Command::Start => {
                    assert(tv == "Recording started."@);
                    assert(st1 == true);
                    assert(start_count(rem) == 1 + start_count(rest));
                    assert(stop_count(st0, rem) == stop_count(true, rest));
                    assert(consumed1 =~= consumed0);
                },
                Command::Stop => {
                    if st0 {
                        let b = recorder.captures().last();
                        assert(recorder.captures() == rec0.captures().push(b));
                        assert(recorder.captures().take(old(recorder).captures().len() as int)
                            =~= rec0.captures().take(old(recorder).captures().len() as int));
                        assert(recorder.captures().skip(old(recorder).captures().len() as int)
                            =~= rec0.captures().skip(old(recorder).captures().len() as int).push(
                            b,
                        ));
                        assert(old(transcriber).requests() + recorder.captures().skip(
                            old(recorder).captures().len() as int,
                        ) =~= (old(transcriber).requests() + rec0.captures().skip(
                            old(recorder).captures().len() as int,
                        )).push(b));
                        assert(transcriber.outputs() == tr0.outputs().push(tv));
                        assert(transcriber.outputs().take(old(transcriber).outputs().len() as int)
                            =~= tr0.outputs().take(old(transcriber).outputs().len() as int));
                        assert(st1 == false);
                        assert(start_count(rem) == start_count(rest));
                        assert(stop_count(st0, rem) == 1 + stop_count(false, rest));
                        assert(consumed1 =~= consumed0.push(tv));
                    } else {
                        assert(tv == "No recording in progress."@);
                        assert(st1 == st0);
                        assert(start_count(rem) == start_count(rest));
                        assert(stop_count(st0, rem) == stop_count(false, rest));
                        assert(consumed1 =~= consumed0);
                    }
                },
                Command::Unknown => {
                    assert(tv == "Unknown command."@);
                    assert(st1 == st0);
                    assert(start_count(rem) == start_count(rest));
                    assert(stop_count(st0, rem) == stop_count(st0, rest));
                    assert(consumed1 =~= consumed0);
                },
            }
            assert forall|t: Seq<Seq<char>>|
                #[trigger] run_model(false, all, consumed1 + t) == respv + run_model(
                    st1,
                    rest,
                    t,
                ) by {
                if cmd is Stop && st0 {
                    let t0 = seq![tv] + t;
                    assert(consumed1 + t =~= consumed0 + t0);
                    assert(run_model(false, all, consumed0 + t0) == resp0 + run_model(
                        st0,
                        rem,
                        t0,
                    ));
                    assert(t0.first() == tv);
                    assert(t0.drop_first() =~= t);
                    assert(run_model(st0, rem, t0) == seq![tv] + run_model(false, rest, t));
                    assert(resp0 + (seq![tv] + run_model(false, rest, t)) =~= respv + run_model(
                        false,
                        rest,
                        t,
                    ));
                } else {
                    assert(consumed1 + t =~= consumed0 + t);
                    assert(run_model(false, all, consumed0 + t) == resp0 + run_model(
                        st0,
                        rem,
                        t,
                    ));
                    assert(run_model(st0, rem, t) == seq![tv] + run_model(st1, rest, t));
                    assert(resp0 + (seq![tv] + run_model(st1, rest, t)) =~= respv + run_model(
                        st1,
                        rest,
                        t,
                    ));
                }
            }
        }
        i = i + 1;
    }
    proof {
        let rem_end = all.skip(i as int);
        assert(rem_end =~= Seq::<Seq<char>>::empty());
        assert(start_count(rem_end) == 0);
        assert(stop_count(session.recording(), rem_end) == 0);
        let consumed = transcriber.outputs().skip(old(transcriber).outputs().len() as int);
        assert(run_model(false, all, consumed + Seq::<Seq<char>>::empty()) == responses.deep_view()
            + run_model(session.recording(), rem_end, Seq::<Seq<char>>::empty()));
        assert(consumed + Seq::<Seq<char>>::empty() =~= consumed);
        assert(responses.deep_view() + run_model(
            session.recording(),
            rem_end,
            Seq::<Seq<char>>::empty(),
        ) =~= responses.deep_view());
    }
    Ok(responses)
}

} // verus!
