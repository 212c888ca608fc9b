use recording_server::capabilities::{AudioBuffer, CapabilityError, Recorder, Transcriber};
use recording_server::protocol::{parse_command, split_lines, str_eq, trim, Command};
use recording_server::session::{run_session, Session};

struct MockRecorder {
    started: usize,
    stopped: usize,
    fail_start: bool,
    fail_stop: bool,
    payload: Vec<u8>,
}

impl MockRecorder {
    fn with_payload(payload: Vec<u8>) -> MockRecorder {
        MockRecorder { started: 0, stopped: 0, fail_start: false, fail_stop: false, payload }
    }
}

impl Recorder for MockRecorder {
    fn start(&mut self) -> Result<(), CapabilityError> {
        self.started += 1;
        if self.fail_start {
            Err(CapabilityError { detail: "microphone unavailable".to_string() })
        } else {
            Ok(())
        }
    }

    fn stop(&mut self) -> Result<AudioBuffer, CapabilityError> {
        self.stopped += 1;
        if self.fail_stop {
            Err(CapabilityError { detail: "capture lost".to_string() })
        } else {
            Ok(AudioBuffer::from_bytes(self.payload.clone()))
        }
    }
}

struct MockTranscriber {
    received: Vec<Vec<u8>>,
    texts: Vec<String>,
    fail: bool,
}

impl MockTranscriber {
    fn with_texts(texts: Vec<&str>) -> MockTranscriber {
        MockTranscriber {
            received: Vec::new(),
            texts: texts.into_iter().map(|t| t.to_string()).collect(),
            fail: false,
        }
    }
}

impl Transcriber for MockTranscriber {
    fn transcribe(&mut self, audio: &AudioBuffer) -> Result<String, CapabilityError> {
        self.received.push(audio.bytes().clone());
        if self.fail {
            Err(CapabilityError { detail: "engine offline".to_string() })
        } else {
            let i = self.received.len() - 1;
            Ok(self.texts[i].clone())
        }
    }
}

#[test]
fn stop_while_idle_reports_no_recording() {
    let mut rec = MockRecorder::with_payload(Vec::new());
    let mut tr = MockTranscriber::with_texts(vec!["hello"]);
    let mut session = Session::new();
    let r = session.handle_line("STOP_RECORDING\n", &mut rec, &mut tr).unwrap();
    assert_eq!(r, "No recording in progress.");
    assert!(!session.is_recording());
    assert_eq!(rec.started, 0);
    assert_eq!(rec.stopped, 0);
    assert_eq!(tr.received.len(), 0);
}

#[test]
fn unknown_command_never_changes_state() {
    let mut rec = MockRecorder::with_payload(Vec::new());
    let mut tr = MockTranscriber::with_texts(vec!["hello"]);
    let mut session = Session::new();
    let r = session.handle_line("FOO\n", &mut rec, &mut tr).unwrap();
    assert_eq!(r, "Unknown command.");
    assert!(!session.is_recording());
    session.handle_line("START_RECORDING\n", &mut rec, &mut tr).unwrap();
    let r = session.handle_line("BAR\n", &mut rec, &mut tr).unwrap();
    assert_eq!(r, "Unknown command.");
    assert!(session.is_recording());
    assert_eq!(rec.started, 1);
    assert_eq!(rec.stopped, 0);
}

#[test]
fn empty_line_is_unknown() {
    let mut rec = MockRecorder::with_payload(Vec::new());
    let mut tr = MockTranscriber::with_texts(vec![]);
    let mut session = Session::new();
    let r = session.handle_line("\n", &mut rec, &mut tr).unwrap();
    assert_eq!(r, "Unknown command.");
}

#[test]
fn start_stop_pair_invokes_each_capability_once() {
    let mut rec = MockRecorder::with_payload(vec![1, 2, 3]);
    let mut tr = MockTranscriber::with_texts(vec!["hello"]);
    let mut session = Session::new();
    let r = session.handle_line("START_RECORDING\n", &mut rec, &mut tr).unwrap();
    assert_eq!(r, "Recording started.");
    assert!(session.is_recording());
    let r = session.handle_line("STOP_RECORDING\n", &mut rec, &mut tr).unwrap();
    assert_eq!(r, "hello");
    assert!(!session.is_recording());
    assert_eq!(rec.started, 1);
    assert_eq!(rec.stopped, 1);
    assert_eq!(tr.received, vec![vec![1, 2, 3]]);
}

#[test]
fn stop_after_pair_reports_no_recording_again() {
    let mut rec = MockRecorder::with_payload(Vec::new());
    let mut tr = MockTranscriber::with_texts(vec!["hello"]);
    let mut session = Session::new();
    session.handle_line("START_RECORDING\n", &mut rec, &mut tr).unwrap();
    session.handle_line("STOP_RECORDING\n", &mut rec, &mut tr).unwrap();
    assert!(!session.is_recording());
    let r = session.handle_line("STOP_RECORDING\n", &mut rec, &mut tr).unwrap();
    assert_eq!(r, "No recording in progress.");
    assert_eq!(rec.stopped, 1);
}

#[test]
fn start_while_recording_restarts_capture() {
    let mut rec = MockRecorder::with_payload(vec![7]);
    let mut tr = MockTranscriber::with_texts(vec!["again"]);
    let mut session = Session::new();
    let r = session.handle_line("START_RECORDING\n", &mut rec, &mut tr).unwrap();
    assert_eq!(r, "Recording started.");
    let r = session.handle_line("START_RECORDING\n", &mut rec, &mut tr).unwrap();
    assert_eq!(r, "Recording started.");
    assert!(session.is_recording());
    assert_eq!(rec.started, 2);
    let r = session.handle_line("STOP_RECORDING\n", &mut rec, &mut tr).unwrap();
    assert_eq!(r, "again");
    assert_eq!(rec.stopped, 1);
}

#[test]
fn failing_start_terminates_with_error() {
    let mut rec = MockRecorder::with_payload(Vec::new());
    rec.fail_start = true;
    let mut tr = MockTranscriber::with_texts(vec![]);
    let mut session = Session::new();
    let e = session.handle_line("START_RECORDING\n", &mut rec, &mut tr).unwrap_err();
    assert_eq!(e.detail, "microphone unavailable");
    assert!(!session.is_recording());
    assert_eq!(rec.started, 1);
}

#[test]
fn failing_stop_terminates_with_error() {
    let mut rec = MockRecorder::with_payload(Vec::new());
    rec.fail_stop = true;
    let mut tr = MockTranscriber::with_texts(vec![]);
    let mut session = Session::new();
    session.handle_line("START_RECORDING\n", &mut rec, &mut tr).unwrap();
    let e = session.handle_line("STOP_RECORDING\n", &mut rec, &mut tr).unwrap_err();
    assert_eq!(e.detail, "capture lost");
    assert_eq!(rec.stopped, 1);
    assert_eq!(tr.received.len(), 0);
}

#[test]
fn failing_transcriber_terminates_with_error() {
    let mut rec = MockRecorder::with_payload(vec![9]);
    let mut tr = MockTranscriber::with_texts(vec![]);
    tr.fail = true;
    let mut session = Session::new();
    session.handle_line("START_RECORDING\n", &mut rec, &mut tr).unwrap();
    let e = session.handle_line("STOP_RECORDING\n", &mut rec, &mut tr).unwrap_err();
    assert_eq!(e.detail, "engine offline");
    assert_eq!(rec.stopped, 1);
    assert_eq!(tr.received, vec![vec![9]]);
}

#[test]
fn run_session_start_stop_transcript() {
    let mut rec = MockRecorder::with_payload(Vec::new());
    let mut tr = MockTranscriber::with_texts(vec!["hello"]);
    let responses = run_session("START_RECORDING\nSTOP_RECORDING\n", &mut rec, &mut tr).unwrap();
    assert_eq!(responses, vec!["Recording started.", "hello"]);
    let mut wire = String::new();
    for r in &responses {
        wire.push_str(r);
        wire.push('\n');
    }
    assert_eq!(wire, "Recording started.\nhello\n");
}

#[test]
fn run_session_unknown_command() {
    let mut rec = MockRecorder::with_payload(Vec::new());
    let mut tr = MockTranscriber::with_texts(vec![]);
    let responses = run_session("FOO\n", &mut rec, &mut tr).unwrap();
    assert_eq!(responses, vec!["Unknown command."]);
}

#[test]
fn run_session_stop_without_start() {
    let mut rec = MockRecorder::with_payload(Vec::new());
    let mut tr = MockTranscriber::with_texts(vec![]);
    let responses = run_session("STOP_RECORDING\n", &mut rec, &mut tr).unwrap();
    assert_eq!(responses, vec!["No recording in progress."]);
    assert_eq!(rec.started, 0);
    assert_eq!(rec.stopped, 0);
}

#[test]
fn run_session_keeps_input_order() {
    let mut rec = MockRecorder::with_payload(vec![4, 2]);
    let mut tr = MockTranscriber::with_texts(vec!["first words", "second words"]);
    let input = "FOO\nSTART_RECORDING\nBAR\nSTOP_RECORDING\nSTOP_RECORDING\nSTART_RECORDING\nSTOP_RECORDING\n";
    let responses = run_session(input, &mut rec, &mut tr).unwrap();
    assert_eq!(
        responses,
        vec![
            "Unknown command.",
            "Recording started.",
            "Unknown command.",
            "first words",
            "No recording in progress.",
            "Recording started.",
            "second words",
        ]
    );
    assert_eq!(rec.started, 2);
    assert_eq!(rec.stopped, 2);
    assert_eq!(tr.received, vec![vec![4, 2], vec![4, 2]]);
}

#[test]
fn run_session_drops_partial_final_line() {
    let mut rec = MockRecorder::with_payload(Vec::new());
    let mut tr = MockTranscriber::with_texts(vec![]);
    let responses = run_session("FOO\nSTOP_RECORDING", &mut rec, &mut tr).unwrap();
    assert_eq!(responses, vec!["Unknown command."]);
    let responses = run_session("FOO", &mut rec, &mut tr).unwrap();
    assert_eq!(responses, Vec::<String>::new());
}

#[test]
fn run_session_stops_at_first_failure() {
    let mut rec = MockRecorder::with_payload(Vec::new());
    rec.fail_start = true;
    let mut tr = MockTranscriber::with_texts(vec![]);
    let e = run_session("FOO\nSTART_RECORDING\nFOO\n", &mut rec, &mut tr).unwrap_err();
    assert_eq!(e.detail, "microphone unavailable");
    assert_eq!(rec.started, 1);
}

#[test]
fn parse_command_trims_surrounding_whitespace() {
    assert_eq!(parse_command("START_RECORDING"), Command::Start);
    assert_eq!(parse_command("  START_RECORDING\r\n"), Command::Start);
    assert_eq!(parse_command("STOP_RECORDING\n"), Command::Stop);
    assert_eq!(parse_command("\tSTOP_RECORDING \n"), Command::Stop);
    assert_eq!(parse_command("START_RECORDING NOW\n"), Command::Unknown);
    assert_eq!(parse_command("start_recording\n"), Command::Unknown);
    assert_eq!(parse_command(""), Command::Unknown);
}

#[test]
fn trim_strips_both_ends_only() {
    assert_eq!(trim("  a b \r\n"), "a b");
    assert_eq!(trim(""), "");
    assert_eq!(trim(" \t\n"), "");
    assert_eq!(trim("x"), "x");
}

#[test]
fn str_eq_compares_characters() {
    assert!(str_eq("abc", "abc"));
    assert!(!str_eq("abc", "abd"));
    assert!(!str_eq("abc", "ab"));
    assert!(str_eq("", ""));
}

#[test]
fn split_lines_keeps_complete_lines() {
    assert_eq!(split_lines("a\nb\n"), vec!["a", "b"]);
    assert_eq!(split_lines("a\nb"), vec!["a"]);
    assert_eq!(split_lines(""), Vec::<String>::new());
    assert_eq!(split_lines("\n\n"), vec!["", ""]);
}

#[test]
fn audio_buffer_holds_its_bytes() {
    let b = AudioBuffer::from_bytes(vec![1, 2, 3]);
    assert_eq!(b.len(), 3);
    assert_eq!(b.bytes(), &vec![1, 2, 3]);
    let empty = AudioBuffer::from_bytes(Vec::new());
    assert_eq!(empty.len(), 0);
}
