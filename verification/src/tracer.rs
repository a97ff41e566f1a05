//! The controller of a render: what it keeps between start and stop, and how
//! the images of its workers become one.
//!
//! Workers are units of execution that the caller owns. The controller
//! decides how many there are, what each starts from, what each does from
//! pass to pass, and what their results add up to.
use vstd::prelude::*;
use crate::image::Image;
use crate::image::ImageView;
use crate::image::MergeError;
use crate::image::Size;
use crate::image::blank;
use crate::image::deposited;
use crate::image::merged;
use crate::image::sum_fits;
use crate::image::swept;
use crate::image::valid;
use crate::image::lemma_blank_neutral;
use crate::image::lemma_deposit_valid;
use crate::image::lemma_merge_valid;
use crate::path::Event;
use crate::path::SingleFate;
use crate::screen::Screen;
use crate::spectrum::Frequency;

verus! {

/// The image that `images` add up to on top of `base`, merged in order; the
/// first image that cannot be merged ends the merge with its error.
pub open spec fn merged_all(base: ImageView, images: Seq<ImageView>) -> Result<
    ImageView,
    MergeError,
>
    decreases images.len(),
{
    if images.len() == 0 {
        Ok(base)
    } else {
        match merged_all(base, images.drop_last()) {
            Err(e) => Err(e),
            Ok(sum) => if sum.format != images.last().format {
                Err(MergeError::FormatMismatch)
            } else if !sum_fits(sum, images.last()) {
                Err(MergeError::Overflow)
            } else {
                Ok(merged(sum, images.last()))
            },
        }
    }
}

/// The contents of a vector of images.
pub open spec fn views(images: Seq<Image>) -> Seq<ImageView> {
    images.map_values(|i: Image| i@)
}

/// Mathematical state of a controller.
pub struct TracerView {
    pub format: Size,
    pub running: bool,
    pub workers: nat,
    pub checkpoint: Option<ImageView>,
}

/// Controller of one render over a screen of a given size.
pub struct Tracer {
    screen: Screen,
    running: bool,
    workers: usize,
    image: Option<Image>,
}

impl View for Tracer {
    type V = TracerView;

    closed spec fn view(&self) -> TracerView {
        TracerView {
            format: self.screen@,
            running: self.running,
            workers: self.workers as nat,
            checkpoint: match self.image {
                Some(i) => Some(i@),
                None => None,
            },
        }
    }
}

impl Tracer {
    #[verifier::type_invariant]
    spec fn consistent(&self) -> bool {
        !self.running ==> self.workers == 0 && self.image is None
    }

    /// An idle controller of a render over `screen`.
    pub fn new(screen: Screen) -> (tracer: Tracer)
        ensures
            tracer@ == (TracerView {
                format: screen@,
                running: false,
                workers: 0,
                checkpoint: None,
            }),
    {
        Tracer { screen, running: false, workers: 0, image: None }
    }

    /// The screen of the render.
    pub fn screen(&self) -> (screen: Screen)
        ensures
            screen@ == self@.format,
    {
        self.screen
    }

    /// Whether the render has been started.
    pub fn is_running(&self) -> (running: bool)
        ensures
            running == self@.running,
    {
        self.running
    }

    /// Number of workers of the running render.
    pub fn workers(&self) -> (workers: usize)
        ensures
            workers == self@.workers,
    {
        self.workers
    }

    /// Starts the render with `number_of_threads` workers on top of the
    /// checkpoint `image`, if there is one. Each worker is to start from a
    /// blank image of its own, never from the checkpoint. A render that is
    /// started again starts afresh, with the workers and the checkpoint of the
    /// later start.
    pub fn start(&mut self, number_of_threads: usize, image: Option<Image>)
        ensures
            final(self)@ == (TracerView {
                format: old(self)@.format,
                running: true,
                workers: number_of_threads as nat,
                checkpoint: match image {
                    Some(i) => Some(i@),
                    None => None,
                },
            }),
    {
        *self = Tracer { screen: self.screen, running: true, workers: number_of_threads, image };
    }

    /// Stops the render: merges the final images of the workers, one for each
    /// worker the render was started with, in the order given, into the
    /// checkpoint the render started from, or into a blank image where there
    /// was none. The first image that cannot be merged, for its size or for
    /// the number of its passes, ends the merge, and no partial result is
    /// returned.
    pub fn stop(self, images: Vec<Image>) -> (result: Result<Image, MergeError>)
        requires
            images.len() == self@.workers,
        ensures
            match result {
                Ok(i) => Ok::<ImageView, MergeError>(i@),
                Err(e) => Err::<ImageView, MergeError>(e),
            } == merged_all(
                match self@.checkpoint {
                    Some(c) => c,
                    None => blank(self@.format),
                },
                views(images@),
            ),
    {
        proof {
            use_type_invariant(&self);
        }
        let ghost all = views(images@);
        let Tracer { screen, running: _, workers: _, image } = self;
        let mut sum = match image {
            Some(image) => image,
            None => screen.create_image(),
        };
        let format = sum.size();
        let ghost base = sum@;
        let mut i: usize = 0;
        while i < images.len()
            invariant
                i <= images.len(),
                all == views(images@),
                format == base.format,
                sum@.format == format,
                base == match self@.checkpoint {
                    Some(c) => c,
                    None => blank(self@.format),
                },
                merged_all(base, all.take(i as int)) == Ok::<ImageView, MergeError>(sum@),
            decreases images.len() - i,
        {
            proof {
                assert(all.take(i + 1).drop_last() =~= all.take(i as int));
            }
            let size = images[i].size();
            if size.horizontal_count != format.horizontal_count || size.vertical_count
                != format.vertical_count {
                proof {
                    lemma_error_ends_merge(base, all, i + 1);
                }
                return Err(MergeError::FormatMismatch);
            }
            match sum.append(&images[i]) {
                Ok(()) => {},
                Err(e) => {
                    proof {
                        lemma_error_ends_merge(base, all, i + 1);
                    }
                    return Err(e);
                },
            }
            i = i + 1;
        }
        proof {
            assert(all.take(i as int) =~= all);
        }
        Ok(sum)
    }
}

/// Once the merge of the first `n` images has failed, the merge of all of
/// them fails in the same way.
pub proof fn lemma_error_ends_merge(base: ImageView, images: Seq<ImageView>, n: int)
    requires
        0 <= n <= images.len(),
        merged_all(base, images.take(n)) is Err,
    ensures
        merged_all(base, images) == merged_all(base, images.take(n)),
    decreases images.len() - n,
{
    if n == images.len() {
        assert(images.take(n) =~= images);
    } else {
        assert(images.take(n + 1).drop_last() =~= images.take(n));
        lemma_error_ends_merge(base, images, n + 1);
    }
}

/// Sum of the pass counts of `images`.
pub open spec fn total_count(images: Seq<ImageView>) -> nat
    decreases images.len(),
{
    if images.len() == 0 {
        0
    } else {
        total_count(images.drop_last()) + images.last().count
    }
}

/// Sum of the tallies that `images` hold in one slot.
pub open spec fn total_tally(images: Seq<ImageView>, slot: int) -> nat
    decreases images.len(),
{
    if images.len() == 0 {
        0
    } else {
        total_tally(images.drop_last(), slot) + images.last().tallies[slot]
    }
}

/// Well-formed images of one size always merge, as long as the passes they
/// stand for are together within the range of the machine. The result
/// holds, slot by slot, the sum of all their tallies, and stands for the sum
/// of their passes.
pub proof fn lemma_merge_all_sums(base: ImageView, images: Seq<ImageView>)
    requires
        valid(base),
        forall|i: int| 0 <= i < images.len() ==> valid(#[trigger] images[i]) && images[i].format
            == base.format,
        base.count + total_count(images) <= usize::MAX,
    ensures
        merged_all(base, images) is Ok,
        valid(merged_all(base, images)->Ok_0),
        merged_all(base, images)->Ok_0.format == base.format,
        merged_all(base, images)->Ok_0.count == base.count + total_count(images),
        forall|slot: int|
            0 <= slot < base.tallies.len() ==> #[trigger] merged_all(
                base,
                images,
            )->Ok_0.tallies[slot] == base.tallies[slot] + total_tally(images, slot),
    decreases images.len(),
{
    if images.len() > 0 {
        let front = images.drop_last();
        lemma_merge_all_sums(base, front);
        let sum = merged_all(base, front)->Ok_0;
        lemma_merge_valid(sum, images.last());
    }
}

/// A render without workers ends with what it started from.
pub proof fn lemma_no_workers(base: ImageView)
    ensures
        merged_all(base, Seq::empty()) == Ok::<ImageView, MergeError>(base),
{
}

/// A render of one worker on top of a checkpoint ends with the checkpoint and
/// the image of the worker added up: the passes of both, and in every slot
/// the tallies of both.
pub proof fn lemma_resume(checkpoint: ImageView, worker: ImageView)
    requires
        valid(checkpoint),
        valid(worker),
        worker.format == checkpoint.format,
        sum_fits(checkpoint, worker),
    ensures
        merged_all(checkpoint, seq![worker]) == Ok::<ImageView, MergeError>(
            merged(checkpoint, worker),
        ),
        merged(checkpoint, worker).count == checkpoint.count + worker.count,
{
    let one = seq![worker];
    assert(merged_all(checkpoint, one.drop_last()) == Ok::<ImageView, MergeError>(checkpoint));
}

/// A render that starts without a checkpoint ends as one that starts from a
/// blank checkpoint does: with what its workers add up to.
pub proof fn lemma_fresh_start(worker: ImageView)
    requires
        valid(worker),
    ensures
        merged_all(blank(worker.format), seq![worker]) == Ok::<ImageView, MergeError>(worker),
{
    lemma_blank_neutral(worker);
    lemma_resume(blank(worker.format), worker);
}

/// Whether `after` is `before` with one sample pass added, made of answers
/// that `cast` gave.
pub open spec fn passed<F: Fn(usize, usize, Frequency, usize, Option<SingleFate>) -> Event>(
    cast: &F,
    before: ImageView,
    after: ImageView,
) -> bool {
    exists|all: Seq<Seq<Event>>| #[trigger]
        swept(cast, before.format, all) && after == deposited(before, all)
}

/// A render resumed from a checkpoint with one worker that makes one pass
/// ends one pass beyond the checkpoint, with the tallies of the checkpoint and
/// of that pass added up in every slot.
pub proof fn lemma_resume_one_pass<
    F: Fn(usize, usize, Frequency, usize, Option<SingleFate>) -> Event,
>(cast: &F, checkpoint: ImageView, worker: ImageView)
    requires
        valid(checkpoint),
        checkpoint.count < usize::MAX,
        passed(cast, blank(checkpoint.format), worker),
    ensures
        merged_all(checkpoint, seq![worker]) is Ok,
        merged_all(checkpoint, seq![worker])->Ok_0.format == checkpoint.format,
        merged_all(checkpoint, seq![worker])->Ok_0.count == checkpoint.count + 1,
        forall|slot: int|
            0 <= slot < checkpoint.tallies.len() ==> #[trigger] merged_all(
                checkpoint,
                seq![worker],
            )->Ok_0.tallies[slot] == checkpoint.tallies[slot] + worker.tallies[slot],
{
    let start = blank(checkpoint.format);
    let all = choose|all: Seq<Seq<Event>>| #[trigger]
        swept(cast, start.format, all) && worker == deposited(start, all);
    lemma_blank_neutral(checkpoint);
    lemma_deposit_valid(start, all);
    lemma_resume(checkpoint, worker);
}

/// A reading of the clock: whole seconds since the start of 1970, and
/// nanoseconds since the whole second.
#[derive(Copy, Clone, Debug, PartialEq, Eq, Structural)]
pub struct Moment {
    pub seconds: i64,
    pub nanoseconds: u32,
}

/// Nanoseconds from `earlier` to `later`; negative where the clock was set
/// back in between.
pub open spec fn nanoseconds_between(earlier: Moment, later: Moment) -> int {
    (later.seconds - earlier.seconds) * 1_000_000_000 + (later.nanoseconds - earlier.nanoseconds)
}

/// Reads the clock of the machine with `std::time::SystemTime::now`, hands
/// the reading to chrono by its `From<SystemTime>` for `DateTime<Utc>`, and
/// takes it apart with `DateTime::timestamp` and `Timelike::nanosecond`. A
/// clock that stands before 1970 reads as negative seconds. Nothing is known
/// of the time read but what chrono documents of every reading: the
/// nanoseconds stay below two seconds, the second half of that range standing
/// for a leap second. chrono converts the times it has a date for, which
/// reach some 262 000 years either side of 1970.
#[verifier::external_body]
fn now() -> (moment: Moment)
    ensures
        moment.nanoseconds < 2_000_000_000,
{
    let time = chrono::DateTime::<chrono::Utc>::from(std::time::SystemTime::now());
    Moment { seconds: time.timestamp(), nanoseconds: chrono::Timelike::nanosecond(&time) }
}

/// Nanoseconds from `earlier` to `later`.
pub fn elapsed(earlier: Moment, later: Moment) -> (nanoseconds: i128)
    ensures
        nanoseconds == nanoseconds_between(earlier, later),
{
    let seconds: i128 = later.seconds as i128 - earlier.seconds as i128;
    let rest: i128 = later.nanoseconds as i128 - earlier.nanoseconds as i128;
    seconds * 1_000_000_000 + rest
}

/// Whether `report` has been told of pass `index` of worker `worker`, with
/// the nanoseconds between two readings of the clock.
pub open spec fn reported<R: Fn(usize, usize, i128) -> ()>(
    report: &R,
    worker: usize,
    index: int,
) -> bool {
    exists|earlier: Moment, later: Moment|
        {
            &&& earlier.nanoseconds < 2_000_000_000
            &&& later.nanoseconds < 2_000_000_000
            &&& #[trigger] call_ensures(
                *report,
                (worker, index as usize, nanoseconds_between(earlier, later) as i128),
                (),
            )
        }
}

/// Whether the answers of `cancelled` fit a worker that made `passes` passes:
/// it said no after every pass but the last, and yes after the last. The one
/// worker that ends without a yes is the one whose image stands for as many
/// passes as the machine can count.
pub open spec fn signalled<C: Fn() -> bool>(cancelled: &C, passes: int) -> bool {
    &&& passes > 1 ==> call_ensures(*cancelled, (), false)
    &&& call_ensures(*cancelled, (), true) || (passes == usize::MAX && call_ensures(
        *cancelled,
        (),
        false,
    ))
}

/// Whether `stages` are the images of worker `worker` before its first pass
/// and after each of its passes: it starts from a blank image, makes at least
/// one pass, reports every pass, and goes on until it is asked to stop.
pub open spec fn worked<
    F: Fn(usize, usize, Frequency, usize, Option<SingleFate>) -> Event,
    R: Fn(usize, usize, i128) -> (),
    C: Fn() -> bool,
>(cast: &F, report: &R, cancelled: &C, worker: usize, format: Size, stages: Seq<ImageView>) -> bool {
    &&& stages.len() >= 2
    &&& stages[0] == blank(format)
    &&& forall|j: int|
        0 <= j < stages.len() - 1 ==> passed(cast, #[trigger] stages[j], stages[j + 1])
    &&& forall|j: int| 0 <= j < stages.len() - 1 ==> #[trigger] reported(report, worker, j)
    &&& signalled(cancelled, stages.len() - 1)
}

/// The life of worker `worker`: starting from a blank image of the size of
/// `screen`, it makes sample pass after sample pass with `cast`. After each
/// pass it tells `report` its own number, the index of the pass and the
/// nanoseconds that went by on the clock since the pass before, or since it
/// started; then it asks `cancelled` whether it has been asked to stop. A pass
/// once begun is always completed. Returns the image of the worker.
pub fn work<
    F: Fn(usize, usize, Frequency, usize, Option<SingleFate>) -> Event,
    R: Fn(usize, usize, i128) -> (),
    C: Fn() -> bool,
>(screen: &Screen, worker: usize, cast: &F, report: &R, cancelled: &C) -> (image: Image)
    requires
        forall|row: usize, col: usize, frequency: Frequency, level: usize, action: Option<SingleFate>|
            call_requires(*cast, (row, col, frequency, level, action)),
        forall|index: usize, nanoseconds: i128| call_requires(*report, (worker, index, nanoseconds)),
        call_requires(*cancelled, ()),
    ensures
        exists|stages: Seq<ImageView>| #[trigger]
            worked(cast, report, cancelled, worker, screen@, stages) && image@ == stages.last(),
        image@.count >= 1,
{
    let ghost format = screen@;
    let mut image = screen.create_image();
    let mut index: usize = 0;
    let mut last = now();
    let ghost mut stages: Seq<ImageView> = seq![image@];
    loop
        invariant_except_break
            forall|row: usize, col: usize, frequency: Frequency, level: usize, action: Option<SingleFate>|
                call_requires(*cast, (row, col, frequency, level, action)),
            forall|index: usize, nanoseconds: i128|
                call_requires(*report, (worker, index, nanoseconds)),
            call_requires(*cancelled, ()),
            last.nanoseconds < 2_000_000_000,
            stages.len() == index + 1,
            stages[0] == blank(format),
            stages.last() == image@,
            image@.count == index,
            image@.format == format,
            format == screen@,
            forall|j: int| 0 <= j < index ==> passed(cast, #[trigger] stages[j], stages[j + 1]),
            forall|j: int| 0 <= j < index ==> #[trigger] reported(report, worker, j),
            index > 0 ==> call_ensures(*cancelled, (), false),
        ensures
            worked(cast, report, cancelled, worker, format, stages),
            image@ == stages.last(),
            image@.count >= 1,
        decreases usize::MAX - index,
    {
        match screen.sample(&mut image, cast) {
            Err(_) => {
                break ;
            },
            Ok(()) => {},
        }
        let time = now();
        let ghost before = last;
        report(worker, index, elapsed(last, time));
        last = time;
        let stop = cancelled();
        proof {
            stages = stages.push(image@);
            assert(call_ensures(
                *report,
                (worker, index, nanoseconds_between(before, time) as i128),
                (),
            ));
            assert(reported(report, worker, index as int));
        }
        if stop {
            break ;
        }
        index = index + 1;
    }
    image
}

} // verus!
