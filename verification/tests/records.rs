use dacttylo::app::{InputResult, Progress};
use dacttylo::input::record::InputRecorder;
use dacttylo::record::elapsed::Elapsed;
use dacttylo::record::input::InputResultRecord;
use dacttylo::record::manager::{RecordManager, RecordManagerError};
use dacttylo::record::recorder::InputResultRecorder;

fn rec(entries: Vec<(u64, InputResult)>) -> InputResultRecord {
    InputResultRecord { inputs: entries.into_iter().map(|(ms, r)| (Elapsed::from_millis(ms), r)).collect() }
}

#[test]
fn counts_split_correct_and_wrong() {
    let r = rec(vec![
        (10, InputResult::Correct(Progress::Ongoing)),
        (20, InputResult::Wrong('b')),
        (30, InputResult::Wrong('b')),
        (40, InputResult::Wrong('c')),
        (50, InputResult::Correct(Progress::Finished)),
    ]);
    assert_eq!(r.count_correct(), 2);
    assert_eq!(r.count_wrong(), 3);
    let mut stats = r.mistake_stats();
    stats.sort();
    assert_eq!(stats, vec![('b', 2), ('c', 1)]);
    assert_eq!(r.last_elapsed(), Some(Elapsed::from_millis(50)));
}

#[test]
fn correct_between_counts_half_open_range() {
    let r = rec(vec![
        (1000, InputResult::Correct(Progress::Ongoing)),
        (2000, InputResult::Correct(Progress::Ongoing)),
        (3000, InputResult::Wrong('x')),
        (4000, InputResult::Correct(Progress::Finished)),
    ]);
    assert_eq!(r.count_correct_between(&Elapsed::from_millis(1000), &Elapsed::from_millis(4000)), 2);
    assert_eq!(r.count_correct_between(&Elapsed::from_millis(0), &Elapsed::from_millis(5000)), 3);
}

#[test]
fn elapsed_parts_and_order() {
    let e = Elapsed::from_millis(2500);
    assert_eq!(e.secs(), 2);
    assert_eq!(e.subsec_nanos(), 500_000_000);
    assert!(Elapsed::new(1, 999_999_999).is_shorter_than(&Elapsed::new(2, 0)));
    assert!(!Elapsed::new(2, 0).is_shorter_than(&Elapsed::new(2, 0)));
}

#[test]
fn recorders_keep_inputs_in_order() {
    let mut r = InputResultRecorder::new();
    r.push(InputResult::Wrong('a'));
    r.push(InputResult::Correct(Progress::Finished));
    let inputs: Vec<InputResult> = r.record().inputs.iter().map(|e| e.1).collect();
    assert_eq!(inputs, vec![InputResult::Wrong('a'), InputResult::Correct(Progress::Finished)]);
    assert!(!r.record().inputs[1].0.is_shorter_than(&r.record().inputs[0].0));

    let mut c = InputRecorder::new();
    c.push('x');
    c.push('y');
    let chars: Vec<char> = c.record().inputs.iter().map(|e| e.1).collect();
    assert_eq!(chars, vec!['x', 'y']);
}

#[test]
fn record_file_is_named_by_hash_prefix() {
    let manager = RecordManager::mount_dir("records", true).unwrap();
    let path = manager.derive_filepath("hello");
    assert_eq!(path, "records/ea8f163db3");
    let hex = blake3::hash("some text".as_bytes()).to_hex();
    assert_eq!(manager.derive_filepath("some text"), format!("records/{}", &hex.as_str()[0..10]));
    let slash = RecordManager::mount_dir("records/", true).unwrap();
    assert_eq!(slash.derive_filepath("hello"), "records/ea8f163db3");
}

#[test]
fn mounting_a_non_directory_fails() {
    match RecordManager::mount_dir("nope", false) {
        Err(RecordManagerError::NotADirectory(p)) => assert_eq!(p, "nope"),
        Ok(_) => panic!("mounted a non-directory"),
    }
}

#[test]
fn non_directory_message_names_the_path() {
    let e = RecordManagerError::NotADirectory("nope".to_string());
    assert_eq!(e.message(), "`nope` is not a directory");
}
