use wacom_switcher::parser::parse_devices;
use wacom_switcher::parser::DeviceRecord;
use wacom_switcher::remap::RemapError;
use wacom_switcher::remap::RemapRun;

fn record(identifier: &[u8]) -> DeviceRecord {
    DeviceRecord { identifier: identifier.to_vec() }
}

/// Plays the given command results against the session, one per request, and
/// returns the identifiers whose commands the session asked for, in order.
fn drive(run: &mut RemapRun, results: &[bool]) -> Vec<Vec<u8>> {
    let mut asked: Vec<Vec<u8>> = Vec::new();
    loop {
        let id = match run.pending() {
            Some(d) => d.identifier.clone(),
            None => break,
        };
        let ok = results[asked.len()];
        asked.push(id);
        run.step(ok);
    }
    asked
}

#[test]
fn no_records_no_devices_error_and_no_command() {
    let mut run = RemapRun::new(Vec::new());
    assert!(run.pending().is_none());
    assert_eq!(run.outcome(), &Some(Err(RemapError::NoDevices)));
    let asked = drive(&mut run, &[]);
    assert_eq!(asked.len(), 0);
}

#[test]
fn first_failure_stops_before_second_device() {
    let mut run = RemapRun::new(vec![record(b"a1"), record(b"b2")]);
    let asked = drive(&mut run, &[false, true]);
    assert_eq!(asked, vec![b"a1".to_vec()]);
    assert_eq!(
        run.outcome(),
        &Some(Err(RemapError::DeviceFailed(b"a1".to_vec())))
    );
}

#[test]
fn failure_on_second_device_names_it() {
    let mut run = RemapRun::new(vec![record(b"a1"), record(b"b2")]);
    let asked = drive(&mut run, &[true, false]);
    assert_eq!(asked, vec![b"a1".to_vec(), b"b2".to_vec()]);
    assert_eq!(
        run.outcome(),
        &Some(Err(RemapError::DeviceFailed(b"b2".to_vec())))
    );
}

#[test]
fn all_successes_finish_with_success() {
    let mut run = RemapRun::new(vec![record(b"a1"), record(b"b2"), record(b"c3")]);
    let asked = drive(&mut run, &[true, true, true]);
    assert_eq!(asked, vec![b"a1".to_vec(), b"b2".to_vec(), b"c3".to_vec()]);
    assert_eq!(run.outcome(), &Some(Ok(())));
}

#[test]
fn listing_to_remap_runs_each_device_once_in_order() {
    let listing = b"Pen\tid 5 STYLUS\nEraser\tid 7 ERASER\n";
    let records = parse_devices(listing);
    let mut run = RemapRun::new(records);
    let asked = drive(&mut run, &[true, true]);
    assert_eq!(asked, vec![b"5".to_vec(), b"7".to_vec()]);
    assert_eq!(run.outcome(), &Some(Ok(())));
}

#[test]
fn listing_to_remap_stops_at_first_failed_device() {
    let listing = b"Pen\tid 5 STYLUS\nEraser\tid 7 ERASER\n";
    let records = parse_devices(listing);
    let mut run = RemapRun::new(records);
    let asked = drive(&mut run, &[false, true]);
    assert_eq!(asked, vec![b"5".to_vec()]);
    assert_eq!(
        run.outcome(),
        &Some(Err(RemapError::DeviceFailed(b"5".to_vec())))
    );
}
