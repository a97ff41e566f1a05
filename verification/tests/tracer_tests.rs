use gus::image::Image;
use gus::image::MergeError;
use gus::image::Size;
use gus::path::Event;
use gus::path::Fate;
use gus::path::SingleFate;
use gus::screen::Screen;
use gus::spectrum::Frequency;
use gus::tracer::elapsed;
use gus::tracer::work;
use gus::tracer::Moment;
use gus::tracer::Tracer;
use std::cell::Cell;
use std::cell::RefCell;

fn size(horizontal_count: usize, vertical_count: usize) -> Size {
    Size { horizontal_count, vertical_count }
}

fn screen(horizontal_count: usize, vertical_count: usize) -> Screen {
    Screen::new(size(horizontal_count, vertical_count)).unwrap()
}

fn glow(_: usize, col: usize, f: Frequency, level: usize, _: Option<SingleFate>) -> Event {
    if level == 0 && f.index() % 2 == col % 2 {
        Event::Hit(Fate { emission: true, single: SingleFate::Decay })
    } else {
        Event::Miss
    }
}

fn quiet(_: usize, _: usize, _: i128) {}

/// A worker that is asked to stop after it has made `passes` passes.
fn worker(on: &Screen, passes: usize) -> Image {
    let made = Cell::new(0usize);
    let cancelled = || {
        made.set(made.get() + 1);
        made.get() >= passes
    };
    work(on, 0, &glow, &quiet, &cancelled)
}

fn one_pass(format: Size) -> Vec<u128> {
    let mut picture = Image::new(format).unwrap();
    Screen::new(format).unwrap().sample(&mut picture, &glow).unwrap();
    picture.into_parts().1
}

#[test]
fn new_tracer_is_idle() {
    let tracer = Tracer::new(screen(4, 3));
    assert!(!tracer.is_running());
    assert_eq!(tracer.workers(), 0);
    assert_eq!(tracer.screen().size(), size(4, 3));
}

#[test]
fn resume_from_checkpoint_with_one_worker_and_one_pass() {
    let format = size(2, 2);
    let k = 5usize;
    let checkpoint_tallies: Vec<u128> = (0..96).map(|i| i % 6).collect();
    let checkpoint = Image::from_parts(format, checkpoint_tallies.clone(), k).unwrap();
    let mut tracer = Tracer::new(screen(2, 2));
    tracer.start(1, Some(checkpoint));
    assert!(tracer.is_running());
    assert_eq!(tracer.workers(), 1);
    let single = worker(&screen(2, 2), 1);
    assert_eq!(single.count(), 1);
    let result = tracer.stop(vec![single]).unwrap();
    assert_eq!(result.count(), k + 1);
    let pass = one_pass(format);
    let expected: Vec<u128> =
        checkpoint_tallies.iter().zip(pass.iter()).map(|(c, p)| c + p).collect();
    assert_eq!(*result.tallies(), expected);
    assert_eq!(result.size(), format);
}

#[test]
fn stop_without_checkpoint_merges_into_a_blank_image() {
    let mut tracer = Tracer::new(screen(2, 1));
    tracer.start(3, None);
    assert_eq!(tracer.workers(), 3);
    let workers = vec![worker(&screen(2, 1), 1), worker(&screen(2, 1), 3), worker(&screen(2, 1), 2)];
    let result = tracer.stop(workers).unwrap();
    assert_eq!(result.count(), 1 + 3 + 2);
    let expected: Vec<u128> = one_pass(size(2, 1)).iter().map(|t| 6 * t).collect();
    assert_eq!(*result.tallies(), expected);
}

#[test]
fn stop_of_an_idle_tracer_gives_a_blank_image() {
    let tracer = Tracer::new(screen(1, 1));
    let result = tracer.stop(vec![]).unwrap();
    assert_eq!(result.into_parts(), (size(1, 1), vec![0; 24], 0));
}

#[test]
fn stop_without_workers_gives_the_checkpoint_back() {
    let tallies: Vec<u128> = (0..48).map(|i| i % 4).collect();
    let checkpoint = Image::from_parts(size(1, 2), tallies.clone(), 9).unwrap();
    let mut tracer = Tracer::new(screen(1, 2));
    tracer.start(0, Some(checkpoint));
    assert_eq!(tracer.stop(vec![]).unwrap().into_parts(), (size(1, 2), tallies.clone(), 9));
    let other = Image::from_parts(size(2, 1), tallies.clone(), 9).unwrap();
    let mut tracer = Tracer::new(screen(1, 2));
    tracer.start(0, Some(other));
    assert_eq!(tracer.stop(vec![]).unwrap().into_parts(), (size(2, 1), tallies, 9));
}

#[test]
fn stop_fails_on_an_image_of_another_size() {
    let mut tracer = Tracer::new(screen(2, 1));
    tracer.start(2, None);
    let workers = vec![worker(&screen(2, 1), 1), worker(&screen(1, 2), 1)];
    assert_eq!(tracer.stop(workers).err(), Some(MergeError::FormatMismatch));
}

#[test]
fn stop_fails_on_a_checkpoint_of_another_size() {
    let mut tracer = Tracer::new(screen(2, 1));
    tracer.start(1, Some(Image::new(size(1, 2)).unwrap()));
    assert!(tracer.is_running());
    assert_eq!(tracer.stop(vec![worker(&screen(2, 1), 1)]).err(), Some(MergeError::FormatMismatch));
}

#[test]
fn stop_fails_where_the_passes_are_too_many() {
    let format = size(1, 1);
    let full = Image::from_parts(format, vec![0; 24], usize::MAX).unwrap();
    let mut tracer = Tracer::new(screen(1, 1));
    tracer.start(1, Some(full));
    assert_eq!(tracer.stop(vec![worker(&screen(1, 1), 1)]).err(), Some(MergeError::Overflow));
}

#[test]
fn a_later_start_takes_the_place_of_an_earlier_one() {
    let mut tracer = Tracer::new(screen(1, 1));
    tracer.start(2, Some(Image::from_parts(size(1, 1), vec![7; 24], 1).unwrap()));
    assert_eq!(tracer.workers(), 2);
    tracer.start(1, None);
    assert!(tracer.is_running());
    assert_eq!(tracer.workers(), 1);
    let result = tracer.stop(vec![worker(&screen(1, 1), 2)]).unwrap();
    assert_eq!(result.count(), 2);
    let expected: Vec<u128> = one_pass(size(1, 1)).iter().map(|t| 2 * t).collect();
    assert_eq!(*result.tallies(), expected);
}

#[test]
fn worker_completes_a_pass_before_it_looks_for_the_signal() {
    let log: RefCell<Vec<String>> = RefCell::new(Vec::new());
    let report = |id: usize, pass: usize, _: i128| {
        log.borrow_mut().push(format!("pass {} of worker {}", pass, id));
    };
    let cancelled = || {
        log.borrow_mut().push(format!("asked"));
        true
    };
    let picture = work(&screen(2, 2), 3, &glow, &report, &cancelled);
    assert_eq!(picture.count(), 1);
    assert_eq!(*log.borrow(), vec![format!("pass 0 of worker 3"), format!("asked")]);
    assert_eq!(*picture.tallies(), one_pass(size(2, 2)));
}

#[test]
fn worker_goes_on_until_asked_to_stop() {
    let passes: RefCell<Vec<(usize, usize)>> = RefCell::new(Vec::new());
    let report = |id: usize, pass: usize, nanoseconds: i128| {
        assert!(nanoseconds.abs() < 3_600_000_000_000);
        passes.borrow_mut().push((id, pass));
    };
    let asked = Cell::new(0u64);
    let cancelled = || {
        asked.set(asked.get() + 1);
        asked.get() == 5
    };
    let picture = work(&screen(1, 3), 7, &glow, &report, &cancelled);
    assert_eq!(picture.count(), 5);
    assert_eq!(asked.get(), 5);
    assert_eq!(*passes.borrow(), vec![(7, 0), (7, 1), (7, 2), (7, 3), (7, 4)]);
    let expected: Vec<u128> = one_pass(size(1, 3)).iter().map(|t| 5 * t).collect();
    assert_eq!(*picture.tallies(), expected);
}

#[test]
fn worker_reports_the_time_that_went_by() {
    let durations: RefCell<Vec<i128>> = RefCell::new(Vec::new());
    let report = |_: usize, _: usize, nanoseconds: i128| {
        durations.borrow_mut().push(nanoseconds);
    };
    let asked = Cell::new(0u64);
    let cancelled = || {
        asked.set(asked.get() + 1);
        let since = std::time::Instant::now();
        while since.elapsed() < std::time::Duration::from_millis(30) {}
        asked.get() == 3
    };
    work(&screen(1, 1), 0, &glow, &report, &cancelled);
    let durations = durations.borrow();
    assert_eq!(durations.len(), 3);
    assert!(durations[1] >= 20_000_000 && durations[1] < 10_000_000_000);
    assert!(durations[2] >= 20_000_000 && durations[2] < 10_000_000_000);
}

#[test]
fn elapsed_is_in_nanoseconds() {
    let moment = |seconds: i64, nanoseconds: u32| Moment { seconds, nanoseconds };
    assert_eq!(elapsed(moment(10, 250), moment(10, 900)), 650);
    assert_eq!(elapsed(moment(10, 900_000_000), moment(12, 100_000_000)), 1_200_000_000);
    assert_eq!(elapsed(moment(12, 100_000_000), moment(10, 900_000_000)), -1_200_000_000);
    assert_eq!(elapsed(moment(-1, 0), moment(0, 1_999_999_999)), 2_999_999_999);
    assert_eq!(elapsed(moment(-3, 999_999_999), moment(-1, 0)), 1_000_000_001);
    assert_eq!(
        elapsed(moment(i64::MIN, u32::MAX), moment(i64::MAX, 0)),
        (i64::MAX as i128 - i64::MIN as i128) * 1_000_000_000 - u32::MAX as i128
    );
    assert_eq!(elapsed(moment(5, 5), moment(5, 5)), 0);
}
