//! The pixel grid of a render, and one sample pass over it.
use vstd::prelude::*;
use crate::image::Image;
use crate::image::MergeError;
use crate::image::Size;
use crate::image::blank;
use crate::image::deposited;
use crate::image::swept;
use crate::path::Event;
use crate::path::SingleFate;
use crate::spectrum::Frequency;

verus! {

/// A screen of a size for which the machine can hold an image.
#[derive(Copy, Clone, Debug)]
pub struct Screen {
    format: Size,
}

impl View for Screen {
    type V = Size;

    closed spec fn view(&self) -> Size {
        self.format
    }
}

impl Screen {
    #[verifier::type_invariant]
    spec fn fits(&self) -> bool {
        self.format.slots() <= usize::MAX
    }

    /// The screen of size `format`, where the machine can hold an image of
    /// that size.
    pub fn new(format: Size) -> (screen: Option<Screen>)
        ensures
            screen is Some <==> format.slots() <= usize::MAX,
            screen matches Some(s) ==> s@ == format,
    {
        match format.slot_count() {
            None => None,
            Some(_) => Some(Screen { format }),
        }
    }

    /// Size of the screen.
    pub fn size(&self) -> (format: Size)
        ensures
            format == self@,
            format.slots() <= usize::MAX,
    {
        proof {
            use_type_invariant(self);
        }
        self.format
    }

    /// A blank image of the size of the screen.
    pub fn create_image(&self) -> (image: Image)
        ensures
            image@ == blank(self@),
    {
        proof {
            use_type_invariant(self);
        }
        match Image::new(self.format) {
            Some(image) => image,
            None => vstd::pervasive::unreached(),
        }
    }

    /// Runs one sample pass into `image`: follows, for every pixel in
    /// row-major order and every bin in turn, one path through that pixel at
    /// the frequency of that bin, asking `cast` what each ray meets, and
    /// deposits what the path collected in the slot of that pixel and bin.
    /// Counts the pass once. Nothing is asked and nothing is changed where the
    /// image is not of the size of the screen, or already stands for as many
    /// passes as the machine can count.
    pub fn sample<F: Fn(usize, usize, Frequency, usize, Option<SingleFate>) -> Event>(
        &self,
        image: &mut Image,
        cast: &F,
    ) -> (done: Result<(), MergeError>)
        requires
            forall|row: usize, col: usize, frequency: Frequency, level: usize, action: Option<SingleFate>|
                call_requires(*cast, (row, col, frequency, level, action)),
        ensures
            done == if old(image)@.format != self@ {
                Err::<(), MergeError>(MergeError::FormatMismatch)
            } else if old(image)@.count >= usize::MAX {
                Err::<(), MergeError>(MergeError::Overflow)
            } else {
                Ok::<(), MergeError>(())
            },
            done is Err ==> final(image)@ == old(image)@,
            done is Ok ==> exists|all: Seq<Seq<Event>>|
                #[trigger] swept(cast, self@, all) && final(image)@ == deposited(old(image)@, all),
    {
        let format = image.size();
        if format.horizontal_count != self.format.horizontal_count || format.vertical_count
            != self.format.vertical_count {
            return Err(MergeError::FormatMismatch);
        }
        image.pass(cast)
    }
}

} // verus!
