use gus::path::follow;
use gus::path::trace;
use gus::path::Event;
use gus::path::Fate;
use gus::path::Path;
use gus::path::SingleFate;
use gus::path::MAXIMAL_LEVEL;
use gus::spectrum::Frequency;
use gus::spectrum::SIZE;
use std::cell::RefCell;

fn hit(emission: bool, single: SingleFate) -> Event {
    Event::Hit(Fate { emission, single })
}

#[test]
fn frequency_is_reduced_into_the_table() {
    assert_eq!(SIZE, 24);
    assert_eq!(Frequency::new(0).index(), 0);
    assert_eq!(Frequency::new(23).index(), 23);
    assert_eq!(Frequency::new(24).index(), 0);
    assert_eq!(Frequency::new(25).index(), 1);
    assert_eq!(Frequency::new(1000).index(), 1000 % 24);
    assert_eq!(Frequency::new(usize::MAX).index(), usize::MAX % 24);
    assert_eq!(Frequency::new(5), Frequency::new(29));
}

#[test]
fn empty_scene_contributes_nothing() {
    assert_eq!(trace(&vec![Event::Miss]), Vec::<usize>::new());
    assert_eq!(trace(&vec![]), Vec::<usize>::new());
    assert_eq!(
        trace(&vec![Event::Miss, hit(true, SingleFate::Diffuse)]),
        Vec::<usize>::new()
    );
}

#[test]
fn enclosing_emitter_contributes_at_depth_zero() {
    assert_eq!(trace(&vec![hit(true, SingleFate::Decay)]), vec![0]);
    let bouncing = vec![hit(true, SingleFate::Diffuse); 20];
    let emitted = trace(&bouncing);
    assert_eq!(emitted[0], 0);
    assert_eq!(emitted, vec![0, 1, 2, 3, 4, 5, 6]);
}

#[test]
fn emission_is_attributed_to_the_ray_that_struck() {
    let events = vec![
        hit(false, SingleFate::Diffuse),
        hit(false, SingleFate::Reflect),
        hit(true, SingleFate::Refract),
        hit(false, SingleFate::Diffuse),
        hit(true, SingleFate::Decay),
        hit(true, SingleFate::Diffuse),
    ];
    assert_eq!(trace(&events), vec![2, 4]);
}

#[test]
fn decay_ends_the_path() {
    let events = vec![
        hit(false, SingleFate::Decay),
        hit(true, SingleFate::Diffuse),
    ];
    assert_eq!(trace(&events), Vec::<usize>::new());
}

#[test]
fn path_is_cut_at_the_maximal_level() {
    assert_eq!(MAXIMAL_LEVEL, 7);
    let mut events = vec![hit(false, SingleFate::Reflect); 7];
    events.push(hit(true, SingleFate::Decay));
    assert_eq!(trace(&events), Vec::<usize>::new());
    let mut events = vec![hit(false, SingleFate::Reflect); 6];
    events.push(hit(true, SingleFate::Reflect));
    assert_eq!(trace(&events), vec![6]);
}

#[test]
fn step_reports_the_scattering_to_perform() {
    let path = Path::new();
    assert!(path.is_live());
    assert_eq!(path.level(), 0);
    let (path, next) = path.step(hit(true, SingleFate::Refract));
    assert_eq!(next, Some(SingleFate::Refract));
    assert!(path.is_live());
    assert_eq!(path.level(), 1);
    let (path, next) = path.step(hit(false, SingleFate::Diffuse));
    assert_eq!(next, Some(SingleFate::Diffuse));
    assert_eq!(path.level(), 2);
    let (path, next) = path.step(Event::Miss);
    assert_eq!(next, None);
    assert!(!path.is_live());
    assert_eq!(path.level(), 2);
    assert_eq!(path.finish(), vec![0]);
}

#[test]
fn step_at_the_last_level_asks_for_no_scattering() {
    let mut path = Path::new();
    for level in 0..6 {
        assert_eq!(path.level(), level);
        let (after, next) = path.step(hit(false, SingleFate::Reflect));
        assert_eq!(next, Some(SingleFate::Reflect));
        path = after;
    }
    assert_eq!(path.level(), 6);
    let (path, next) = path.step(hit(true, SingleFate::Reflect));
    assert_eq!(next, None);
    assert!(!path.is_live());
    assert_eq!(path.finish(), vec![6]);
}

#[test]
fn follow_asks_once_per_ray_in_order() {
    let asked: RefCell<Vec<(usize, usize, usize, usize, Option<SingleFate>)>> =
        RefCell::new(Vec::new());
    let cast = |row: usize, col: usize, f: Frequency, level: usize, action: Option<SingleFate>| {
        asked.borrow_mut().push((row, col, f.index(), level, action));
        match level {
            0 => hit(true, SingleFate::Diffuse),
            1 => hit(false, SingleFate::Refract),
            2 => hit(true, SingleFate::Decay),
            _ => panic!("asked beyond the end of the path"),
        }
    };
    let emitted = follow(&cast, 3, 4, Frequency::new(5));
    assert_eq!(emitted, vec![0, 2]);
    assert_eq!(
        *asked.borrow(),
        vec![
            (3, 4, 5, 0, None),
            (3, 4, 5, 1, Some(SingleFate::Diffuse)),
            (3, 4, 5, 2, Some(SingleFate::Refract)),
        ]
    );
}

#[test]
fn follow_stops_asking_at_the_maximal_level() {
    let asked = RefCell::new(0usize);
    let cast = |_: usize, _: usize, _: Frequency, level: usize, _: Option<SingleFate>| {
        *asked.borrow_mut() += 1;
        assert!(level < MAXIMAL_LEVEL);
        hit(true, SingleFate::Reflect)
    };
    let emitted = follow(&cast, 0, 0, Frequency::new(0));
    assert_eq!(emitted, vec![0, 1, 2, 3, 4, 5, 6]);
    assert_eq!(*asked.borrow(), 7);
}

#[test]
fn follow_through_an_empty_scene() {
    let cast = |_: usize, _: usize, _: Frequency, _: usize, _: Option<SingleFate>| Event::Miss;
    assert_eq!(follow(&cast, 0, 0, Frequency::new(7)), Vec::<usize>::new());
}
