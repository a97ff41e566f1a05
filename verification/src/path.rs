//! One light path: the decisions taken between two pieces of geometry.
//!
//! The geometry (intersection, scattering directions) is numerical work done
//! elsewhere. What is decided here is how far a path goes, at which of its
//! levels light is collected, and when it ends.
use vstd::prelude::*;
use crate::spectrum::Frequency;

verus! {

/// Number of rays a path may cast; the ray of this level is never cast.
pub const MAXIMAL_LEVEL: usize = 7;

/// The single scattering event drawn for a hit.
#[derive(Copy, Clone, Debug, PartialEq, Eq, Structural)]
pub enum SingleFate {
    Decay,
    Diffuse,
    Reflect,
    Refract,
}

/// Outcome of sampling a material at one frequency.
#[derive(Copy, Clone, Debug, PartialEq, Eq, Structural)]
pub struct Fate {
    pub emission: bool,
    pub single: SingleFate,
}

/// What the scene reports for the ray of one level.
#[derive(Copy, Clone, Debug, PartialEq, Eq, Structural)]
pub enum Event {
    Miss,
    Hit(Fate),
}

/// What the ray of `level` collects on meeting `event`: its own level where
/// the surface hit emits, nothing otherwise.
pub open spec fn collected(event: Event, level: nat) -> Seq<nat> {
    match event {
        Event::Hit(fate) if fate.emission => seq![level],
        _ => Seq::empty(),
    }
}

/// Whether a path at `level` casts a further ray after meeting `event`.
pub open spec fn continues(event: Event, level: nat) -> bool {
    match event {
        Event::Miss => false,
        Event::Hit(fate) => fate.single != SingleFate::Decay && level + 1 < MAXIMAL_LEVEL,
    }
}

/// Levels at which a path that is at `level` collects light, given the events
/// its rays meet from there on: what the ray of that level collects, then
/// what the rest of the path collects, if the path goes on. No ray is cast at
/// the maximal level, and a path for which no further event is known ends
/// where the events end.
pub open spec fn contributions(events: Seq<Event>, level: nat) -> Seq<nat>
    decreases events.len(),
{
    if level >= MAXIMAL_LEVEL || events.len() == 0 {
        Seq::empty()
    } else if continues(events[0], level) {
        collected(events[0], level) + contributions(events.drop_first(), level + 1)
    } else {
        collected(events[0], level)
    }
}

/// Mathematical state of a path.
pub struct PathView {
    pub level: nat,
    pub live: bool,
    pub emitted: Seq<nat>,
}

/// A path about to cast its primary ray.
pub open spec fn primary() -> PathView {
    PathView { level: 0, live: true, emitted: Seq::empty() }
}

/// The path after its ray in flight has met `event`: it collects what the ray
/// collects, and moves one level up where a further ray follows.
pub open spec fn stepped(path: PathView, event: Event) -> PathView {
    PathView {
        level: if continues(event, path.level) {
            path.level + 1
        } else {
            path.level
        },
        live: continues(event, path.level),
        emitted: path.emitted + collected(event, path.level),
    }
}

/// The scattering that produces the next ray of a path at `level` after
/// `event`, if there is a next ray.
pub open spec fn scattering(event: Event, level: nat) -> Option<SingleFate> {
    match event {
        Event::Hit(fate) if continues(event, level) => Some(fate.single),
        _ => None,
    }
}

/// A path in progress.
pub struct Path {
    level: usize,
    live: bool,
    emitted: Vec<usize>,
}

impl View for Path {
    type V = PathView;

    closed spec fn view(&self) -> PathView {
        PathView {
            level: self.level as nat,
            live: self.live,
            emitted: self.emitted@.map_values(|l: usize| l as nat),
        }
    }
}

impl Path {
    #[verifier::type_invariant]
    spec fn bounded(&self) -> bool {
        &&& self.level < MAXIMAL_LEVEL
        &&& self.live ==> self.emitted.len() <= self.level
        &&& self.emitted.len() <= self.level + 1
    }

    /// A path about to cast its primary ray.
    pub fn new() -> (path: Path)
        ensures
            path@ == primary(),
    {
        let path = Path { level: 0, live: true, emitted: Vec::new() };
        assert(path@.emitted =~= Seq::<nat>::empty());
        path
    }

    /// Whether the path still has a ray in flight.
    pub fn is_live(&self) -> (live: bool)
        ensures
            live == self@.live,
    {
        proof {
            use_type_invariant(self);
        }
        self.live
    }

    /// Level of the ray in flight.
    pub fn level(&self) -> (level: usize)
        ensures
            level == self@.level,
            level < MAXIMAL_LEVEL,
    {
        proof {
            use_type_invariant(self);
        }
        self.level
    }

    /// Takes in what the ray in flight met. Returns the path after it, and the
    /// scattering the caller has to perform to obtain the next ray, or `None`
    /// where the path ends.
    pub fn step(self, event: Event) -> (after: (Path, Option<SingleFate>))
        requires
            self@.live,
        ensures
            after.0@ == stepped(self@, event),
            after.1 == scattering(event, self@.level),
    {
        proof {
            use_type_invariant(&self);
        }
        let ghost before = self@;
        let Path { level, live: _, mut emitted } = self;
        match event {
            Event::Miss => (Path { level, live: false, emitted }, None),
            Event::Hit(fate) => {
                if fate.emission {
                    emitted.push(level);
                }
                assert(emitted@.map_values(|l: usize| l as nat) =~= before.emitted + collected(
                    event,
                    before.level,
                ));
                let decays = match fate.single {
                    SingleFate::Decay => true,
                    _ => false,
                };
                if !decays && level + 1 < MAXIMAL_LEVEL {
                    (Path { level: level + 1, live: true, emitted }, Some(fate.single))
                } else {
                    (Path { level, live: false, emitted }, None)
                }
            },
        }
    }

    /// Ends the path and hands out the levels at which it collected light.
    pub fn finish(self) -> (emitted: Vec<usize>)
        ensures
            emitted@.map_values(|l: usize| l as nat) == self@.emitted,
            emitted.len() <= MAXIMAL_LEVEL,
    {
        proof {
            use_type_invariant(&self);
        }
        self.emitted
    }
}

/// Follows one path from its primary ray over the events its rays meet, in
/// order, and returns the levels at which it collected light.
pub fn trace(events: &Vec<Event>) -> (emitted: Vec<usize>)
    ensures
        emitted@.map_values(|l: usize| l as nat) == contributions(events@, 0),
        emitted.len() <= MAXIMAL_LEVEL,
{
    let mut path = Path::new();
    let mut i: usize = 0;
    proof {
        assert(events@.skip(0) =~= events@);
    }
    while i < events.len() && path.is_live()
        invariant
            i <= events.len(),
            path@.live ==> path@.level == i,
            contributions(events@, 0) == path@.emitted + remaining(events@, i as int, path@),
        decreases events.len() - i,
    {
        let ghost before = path@;
        let event = events[i];
        let (after, _) = path.step(event);
        proof {
            use_type_invariant(&after);
            lemma_unfold(events@.skip(i as int), before.level);
            assert(events@.skip(i as int).drop_first() =~= events@.skip(i + 1));
        }
        path = after;
        i = i + 1;
    }
    path.finish()
}

/// What a path in state `path` still has to collect from the events at `from`
/// onwards.
spec fn remaining(events: Seq<Event>, from: int, path: PathView) -> Seq<nat> {
    if path.live {
        contributions(events.skip(from), path.level)
    } else {
        Seq::empty()
    }
}

/// One level of a path: what its ray collects, then the rest of the path.
pub proof fn lemma_unfold(events: Seq<Event>, level: nat)
    requires
        events.len() > 0,
        level < MAXIMAL_LEVEL,
    ensures
        contributions(events, level) == collected(events[0], level) + if continues(
            events[0],
            level,
        ) {
            contributions(events.drop_first(), level + 1)
        } else {
            Seq::empty()
        },
{
}

/// A path whose ray meets nothing collects nothing, at whatever level it is.
pub proof fn lemma_miss_collects_nothing(events: Seq<Event>, level: nat)
    requires
        events.len() == 0 || events[0] == Event::Miss,
    ensures
        contributions(events, level) == Seq::<nat>::empty(),
{
}

/// A ray that strikes an emitting surface is itself the first thing its path
/// collects.
pub proof fn lemma_emitter_collects(events: Seq<Event>, level: nat)
    requires
        level < MAXIMAL_LEVEL,
        events.len() > 0,
        events[0] matches Event::Hit(fate) && fate.emission,
    ensures
        contributions(events, level).len() >= 1,
        contributions(events, level)[0] == level,
{
    lemma_unfold(events, level);
}

/// A path collects at most once per level, in rising order of level, and never
/// at or beyond the maximal level.
pub proof fn lemma_contributions_rise(events: Seq<Event>, level: nat)
    ensures
        contributions(events, level).len() + level <= MAXIMAL_LEVEL || contributions(
            events,
            level,
        ).len() == 0,
        forall|k: int|
            0 <= k < contributions(events, level).len() ==> level + k <= #[trigger] contributions(
                events,
                level,
            )[k] < MAXIMAL_LEVEL,
        forall|j: int, k: int|
            0 <= j < k < contributions(events, level).len() ==> contributions(events, level)[j]
                < contributions(events, level)[k],
    decreases events.len(),
{
    if level < MAXIMAL_LEVEL && events.len() > 0 {
        lemma_unfold(events, level);
        if continues(events[0], level) {
            lemma_contributions_rise(events.drop_first(), level + 1);
        }
    }
}

/// Whether `events` are the events of one whole path: every ray but the last
/// is followed by a further ray, and the last is not.
pub open spec fn complete(events: Seq<Event>) -> bool {
    &&& events.len() >= 1
    &&& forall|i: int|
        0 <= i < events.len() ==> (continues(#[trigger] events[i], i as nat) <==> i + 1
            < events.len())
}

/// The scattering that produced the ray of level `i`; none for the primary
/// ray.
pub open spec fn action_before(events: Seq<Event>, i: int) -> Option<SingleFate> {
    if i <= 0 {
        None
    } else {
        scattering(events[i - 1], (i - 1) as nat)
    }
}

/// Whether `events` are answers that `cast` gave for the rays of one path
/// through the pixel at `row`, `col`, each asked with the level of the ray and
/// the scattering that produced it.
pub open spec fn answered<F: Fn(usize, usize, Frequency, usize, Option<SingleFate>) -> Event>(
    cast: &F,
    row: usize,
    col: usize,
    frequency: Frequency,
    events: Seq<Event>,
) -> bool {
    forall|i: int|
        0 <= i < events.len() ==> call_ensures(
            *cast,
            (row, col, frequency, i as usize, action_before(events, i)),
            #[trigger] events[i],
        )
}

/// What the rays of `events` collect, each at its own level.
pub open spec fn gathered(events: Seq<Event>) -> Seq<nat>
    decreases events.len(),
{
    if events.len() == 0 {
        Seq::empty()
    } else {
        gathered(events.drop_last()) + collected(events.last(), (events.len() - 1) as nat)
    }
}

/// Along a whole path, what its first `i` rays gather and what the path
/// collects from level `i` on make up what it collects in all.
proof fn lemma_gather(events: Seq<Event>, i: int)
    requires
        complete(events),
        0 <= i <= events.len(),
    ensures
        gathered(events.take(i)) + contributions(events.skip(i), i as nat) == contributions(
            events,
            0,
        ),
        events.len() <= MAXIMAL_LEVEL,
    decreases i,
{
    let last = events.len() - 1;
    assert(last < MAXIMAL_LEVEL) by {
        if last > 0 {
            assert(continues(events[last - 1], (last - 1) as nat));
        }
    }
    if i == 0 {
        assert(events.skip(0) =~= events);
    } else {
        let j = i - 1;
        lemma_gather(events, j);
        lemma_unfold(events.skip(j), j as nat);
        assert(events.skip(j).drop_first() =~= events.skip(i));
        assert(events.take(i).drop_last() =~= events.take(j));
    }
}

/// Follows one path through the pixel at `row`, `col`, asking `cast` what each
/// of its rays meets, and returns the levels at which it collected light.
///
/// `cast` is asked once per ray, in order, with the level of the ray and the
/// scattering that produced it, and for no ray beyond the end of the path.
pub fn follow<F: Fn(usize, usize, Frequency, usize, Option<SingleFate>) -> Event>(
    cast: &F,
    row: usize,
    col: usize,
    frequency: Frequency,
) -> (emitted: Vec<usize>)
    requires
        forall|level: usize, action: Option<SingleFate>|
            call_requires(*cast, (row, col, frequency, level, action)),
    ensures
        exists|events: Seq<Event>|
            {
                &&& complete(events)
                &&& #[trigger] answered(cast, row, col, frequency, events)
                &&& emitted@.map_values(|l: usize| l as nat) == contributions(events, 0)
            },
        emitted.len() <= MAXIMAL_LEVEL,
{
    let mut path = Path::new();
    let mut action: Option<SingleFate> = None;
    let ghost mut events: Seq<Event> = Seq::empty();
    while path.is_live()
        invariant
            forall|level: usize, action: Option<SingleFate>|
                call_requires(*cast, (row, col, frequency, level, action)),
            path@.level < MAXIMAL_LEVEL,
            events.len() == if path@.live {
                path@.level
            } else {
                path@.level + 1
            },
            forall|i: int|
                0 <= i < events.len() ==> (continues(#[trigger] events[i], i as nat) <==> (i + 1
                    < events.len() || path@.live)),
            answered(cast, row, col, frequency, events),
            action == action_before(events, events.len() as int),
            path@.emitted == gathered(events),
        decreases
                if path@.live {
                    MAXIMAL_LEVEL - path@.level
                } else {
                    0
                },
    {
        let level = path.level();
        let event = cast(row, col, frequency, level, action);
        let ghost before = events;
        let (after, next) = path.step(event);
        proof {
            use_type_invariant(&after);
            events = before.push(event);
            assert(events.drop_last() =~= before);
        }
        path = after;
        action = next;
    }
    proof {
        lemma_gather(events, events.len() as int);
        assert(events.take(events.len() as int) =~= events);
    }
    path.finish()
}

} // verus!
