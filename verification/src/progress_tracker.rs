//! The work of one run: the image files among the candidates, in batches.

use vstd::prelude::*;
use crate::batches::{batch_count, batch_of, chunk};
use crate::paths::ImagePath;

verus! {

/// Whether the extension of a file name is one that the `image` crate maps
/// to an image format.
pub uninterp spec fn recognized_format(file_name: Seq<char>) -> bool;

/// `image::ImageFormat::from_path` on a file name, asked only whether it
/// found a format. The function looks at nothing but the extension of the
/// name, so the answer is a function of the name; the contract gives that
/// answer the name `recognized_format` and claims no more.
#[verifier::external_body]
fn has_recognized_format(file_name: &str) -> (found: bool)
    ensures
        found == recognized_format(file_name@),
{
    image::ImageFormat::from_path(file_name).is_ok()
}

/// The path ends in a file name with a recognized image extension.
pub open spec fn is_image_path(path: ImagePath) -> bool {
    path.parts().len() > 0 && recognized_format(path.parts().last())
}

/// Holds of the paths that `keep_images` keeps.
pub open spec fn image_paths() -> spec_fn(ImagePath) -> bool {
    |path: ImagePath| is_image_path(path)
}

/// Tells whether a path ends in a file name with a recognized image
/// extension.
pub fn names_image(path: &ImagePath) -> (found: bool)
    ensures
        found == is_image_path(*path),
{
    let n: usize = path.components.len();
    if n == 0 {
        false
    } else {
        assert(path.parts().last() == path.components@[n - 1]@);
        has_recognized_format(path.components[n - 1].as_str())
    }
}

/// Keeps the candidates that name an image, in their order.
pub fn keep_images(candidates: Vec<ImagePath>) -> (images: Vec<ImagePath>)
    ensures
        images@ == candidates@.filter(image_paths()),
{
    let mut images: Vec<ImagePath> = Vec::new();
    let ghost all = candidates@;
    assert(all.take(0).filter(image_paths()) =~= images@) by {
        reveal(Seq::filter);
    }
    for candidate in it: candidates
        invariant
            it.seq() == all,
            images@ == all.take(it.index() as int).filter(image_paths()),
    {
        proof {
            let i = it.index() as int;
            assert(all.take(i + 1) =~= all.take(i).push(candidate));
            all.take(i).lemma_filter_push(candidate, image_paths());
        }
        if names_image(&candidate) {
            images.push(candidate);
        }
    }
    assert(all.take(all.len() as int) =~= all);
    images
}

/// The image paths of a run, cut into batches.
pub struct ProgressTracker {
    image_paths: Vec<Vec<ImagePath>>,
}

impl ProgressTracker {
    /// The batches, each a list of paths.
    pub closed spec fn batches(self) -> Seq<Seq<ImagePath>> {
        Seq::new(self.image_paths@.len(), |b: int| self.image_paths@[b]@)
    }

    /// `self` holds `images` cut into batches of `batch_size`.
    pub open spec fn holds(self, images: Seq<ImagePath>, batch_size: nat) -> bool {
        &&& self.batches().len() == batch_count(images.len(), batch_size)
        &&& forall|b: int|
            0 <= b < self.batches().len() ==> #[trigger] self.batches()[b] == batch_of(
                images,
                batch_size,
                b,
            )
    }

    /// Takes the candidates that name an image and cuts them, in their
    /// order, into batches of `batch_size`; the last batch holds what is
    /// left.
    pub fn new(candidates: Vec<ImagePath>, batch_size: usize) -> (tracker: Self)
        requires
            batch_size >= 1,
        ensures
            tracker.holds(candidates@.filter(image_paths()), batch_size as nat),
    {
        let images = keep_images(candidates);
        let image_paths = chunk(images, batch_size);
        let tracker = ProgressTracker { image_paths };
        assert forall|b: int| 0 <= b < tracker.batches().len() implies #[trigger] tracker.batches()[b]
            == batch_of(images@, batch_size as nat, b) by {
            assert(tracker.image_paths@[b]@ == batch_of(images@, batch_size as nat, b));
        }
        tracker
    }

    /// The number of batches.
    pub fn batch_count(&self) -> (n: usize)
        ensures
            n == self.batches().len(),
    {
        self.image_paths.len()
    }

    /// The batch at position `b`.
    pub fn batch(&self, b: usize) -> (paths: &Vec<ImagePath>)
        requires
            b < self.batches().len(),
        ensures
            paths@ == self.batches()[b as int],
    {
        &self.image_paths[b]
    }

    /// Gives up the tracker for its batches.
    pub fn into_batches(self) -> (batches: Vec<Vec<ImagePath>>)
        ensures
            batches@.len() == self.batches().len(),
            forall|b: int| 0 <= b < batches@.len() ==> (#[trigger] batches@[b])@ == self.batches()[b],
    {
        self.image_paths
    }
}

} // verus!
