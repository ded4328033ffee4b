//! Cursor-image bookkeeping: of all the images a cursor theme file
//! provides, keep the ones whose nominal size is nearest the requested
//! size, and step through them for animation. Loading and parsing the
//! theme file is the caller's job; the images arrive here as plain data.

use vstd::prelude::*;

verus! {

/// One parsed cursor image: the nominal size it was made for, its pixel
/// dimensions, the hotspot, the animation delay, and the pixel data.
#[derive(Debug)]
pub struct Image {
    pub size: u32,
    pub width: u32,
    pub height: u32,
    pub xhot: u32,
    pub yhot: u32,
    pub delay: u32,
    pub pixels_rgba: Vec<u8>,
    pub pixels_argb: Vec<u8>,
}

/// The distance between two sizes.
pub open spec fn spec_abs_diff(a: int, b: int) -> int {
    if a >= b {
        a - b
    } else {
        b - a
    }
}

fn abs_diff_u32(a: u32, b: u32) -> (r: u32)
    ensures
        r == spec_abs_diff(a as int, b as int),
{
    if a >= b {
        a - b
    } else {
        b - a
    }
}

/// The images whose nominal size is exactly `size`, in their given order.
pub open spec fn images_of_size(s: Seq<Image>, size: u32) -> Seq<Image>
    decreases s.len(),
{
    if s.len() == 0 {
        s
    } else if s[0].size == size {
        seq![s[0]] + images_of_size(s.drop_first(), size)
    } else {
        images_of_size(s.drop_first(), size)
    }
}

/// An image of the wanted size guarantees the filtered list is non-empty,
/// and the filtered list holds images of that size only.
pub proof fn lemma_images_of_size(s: Seq<Image>, size: u32)
    ensures
        (exists|j: int| 0 <= j < s.len() && (#[trigger] s[j]).size == size)
            ==> images_of_size(s, size).len() > 0,
        forall|j: int| 0 <= j < images_of_size(s, size).len()
            ==> (#[trigger] images_of_size(s, size)[j]).size == size,
    decreases s.len(),
{
    if s.len() == 0 {
    } else {
        lemma_images_of_size(s.drop_first(), size);
        let rest = images_of_size(s.drop_first(), size);
        if s[0].size == size {
            assert forall|j: int| 0 <= j < images_of_size(s, size).len() implies
                (#[trigger] images_of_size(s, size)[j]).size == size by {
                if j > 0 {
                    assert(images_of_size(s, size)[j] == rest[j - 1]);
                }
            }
        } else {
            if exists|j: int| 0 <= j < s.len() && (#[trigger] s[j]).size == size {
                let j = choose|j: int| 0 <= j < s.len() && (#[trigger] s[j]).size == size;
                assert(j != 0);
                assert(s.drop_first()[j - 1].size == size);
            }
        }
    }
}

/// The animated cursor: the images of the chosen size, the position of the
/// frame currently shown, the chosen size, and the variant name.
#[derive(Debug)]
pub struct Xcursor {
    pub images: Vec<Image>,
    pub curr_image_pos: usize,
    pub size: u32,
    pub variant: String,
}

impl Xcursor {
    /// Well-formedness: at least one image, the current position in range,
    /// and every kept image of the chosen size.
    pub open spec fn wf(self) -> bool {
        &&& self.curr_image_pos < self.images@.len()
        &&& forall|j: int| 0 <= j < self.images@.len()
            ==> (#[trigger] self.images@[j]).size == self.size
    }

    /// Build a cursor from the parsed images of a theme file: of the
    /// nominal sizes on offer, pick the one nearest `requested_size`
    /// (the earliest on a tie), keep exactly the images of that size, and
    /// start at the first. Nothing is built from an empty image list.
    pub fn from_images(images: Vec<Image>, requested_size: u32, variant: String) -> (r: Option<
        Xcursor,
    >)
        ensures
            r is Some <==> images@.len() > 0,
            r matches Some(x) ==> {
                &&& x.wf()
                &&& x.curr_image_pos == 0
                &&& x.variant == variant
                &&& x.images@ == images_of_size(images@, x.size)
                &&& exists|j: int| 0 <= j < images@.len() && (#[trigger] images@[j]).size
                    == x.size && (forall|l: int| 0 <= l < j ==> spec_abs_diff(
                    requested_size as int,
                    (#[trigger] images@[l]).size as int,
                ) > spec_abs_diff(requested_size as int, x.size as int))
                &&& forall|l: int| 0 <= l < images@.len() ==> spec_abs_diff(
                    requested_size as int,
                    x.size as int,
                ) <= spec_abs_diff(requested_size as int, (#[trigger] images@[l]).size as int)
            },
    {
        if images.len() == 0 {
            return None;
        }
        let ghost all = images@;
        let mut best: u32 = images[0].size;
        let mut best_idx: usize = 0;
        let mut k: usize = 1;
        while k < images.len()
            invariant
                images@ == all,
                1 <= k <= all.len(),
                best_idx < k,
                all[best_idx as int].size == best,
                forall|l: int| 0 <= l < best_idx ==> spec_abs_diff(
                    requested_size as int,
                    (#[trigger] all[l]).size as int,
                ) > spec_abs_diff(requested_size as int, best as int),
                forall|l: int| 0 <= l < k ==> spec_abs_diff(requested_size as int, best as int)
                    <= spec_abs_diff(requested_size as int, (#[trigger] all[l]).size as int),
            decreases all.len() - k,
        {
            if abs_diff_u32(requested_size, images[k].size) < abs_diff_u32(requested_size, best) {
                best = images[k].size;
                best_idx = k;
            }
            k = k + 1;
        }
        let mut rest = images;
        let mut keep: Vec<Image> = Vec::new();
        proof {
            assert(all.skip(0) =~= all);
            assert(keep@ + images_of_size(all.skip(0), best) =~= images_of_size(all, best));
        }
        let ghost processed: int = 0;
        while rest.len() > 0
            invariant
                0 <= processed <= all.len(),
                rest@ == all.skip(processed),
                keep@ + images_of_size(all.skip(processed), best) == images_of_size(all, best),
                forall|j: int| 0 <= j < keep@.len() ==> (#[trigger] keep@[j]).size == best,
            decreases rest@.len(),
        {
            proof {
                assert(all.skip(processed)[0] == all[processed]);
                assert(all.skip(processed).drop_first() =~= all.skip(processed + 1));
            }
            let im = rest.remove(0);
            if im.size == best {
                proof {
                    assert(keep@.push(im) + images_of_size(all.skip(processed + 1), best)
                        =~= keep@ + (seq![im] + images_of_size(all.skip(processed + 1), best)));
                }
                keep.push(im);
            }
            proof {
                processed = processed + 1;
            }
        }
        proof {
            assert(rest@.len() == 0);
            assert(processed == all.len());
            assert(images_of_size(all.skip(processed), best) =~= Seq::<Image>::empty());
            assert(keep@ =~= images_of_size(all, best));
            lemma_images_of_size(all, best);
            assert(all[best_idx as int].size == best);
        }
        Some(Xcursor { images: keep, curr_image_pos: 0, size: best, variant })
    }

    /// Step to the next animation frame, wrapping around at the end.
    pub fn tick(&mut self)
        requires
            old(self).wf(),
        ensures
            final(self).wf(),
            final(self).curr_image_pos == (old(self).curr_image_pos + 1) as int % (
            old(self).images@.len() as int),
            final(self).images@ == old(self).images@,
            final(self).size == old(self).size,
            final(self).variant == old(self).variant,
    {
        let n = self.images.len();
        self.curr_image_pos = (self.curr_image_pos + 1) % n;
    }

    /// The animation frame currently shown.
    pub fn get_curr_image(&self) -> (r: &Image)
        requires
            self.wf(),
        ensures
            *r == self.images@[self.curr_image_pos as int],
    {
        &self.images[self.curr_image_pos]
    }

    /// Switch to another variant's images, parsed by the caller: keep the
    /// images matching this cursor's chosen size and restart the animation.
    /// When none matches, report failure and change nothing.
    pub fn change_variant(&mut self, name: String, images: Vec<Image>) -> (r: bool)
        requires
            old(self).wf(),
        ensures
            final(self).wf(),
            final(self).size == old(self).size,
            r == (images_of_size(images@, old(self).size).len() > 0),
            r ==> final(self).images@ == images_of_size(images@, old(self).size)
                && final(self).variant == name && final(self).curr_image_pos == 0,
            !r ==> *final(self) == *old(self),
    {
        let ghost all = images@;
        let size = self.size;
        let mut rest = images;
        let mut keep: Vec<Image> = Vec::new();
        proof {
            assert(all.skip(0) =~= all);
            assert(keep@ + images_of_size(all.skip(0), size) =~= images_of_size(all, size));
        }
        let ghost processed: int = 0;
        while rest.len() > 0
            invariant
                0 <= processed <= all.len(),
                size == old(self).size,
                *self == *old(self),
                rest@ == all.skip(processed),
                keep@ + images_of_size(all.skip(processed), size) == images_of_size(all, size),
                forall|j: int| 0 <= j < keep@.len() ==> (#[trigger] keep@[j]).size == size,
            decreases rest@.len(),
        {
            proof {
                assert(all.skip(processed)[0] == all[processed]);
                assert(all.skip(processed).drop_first() =~= all.skip(processed + 1));
            }
            let im = rest.remove(0);
            if im.size == size {
                proof {
                    assert(keep@.push(im) + images_of_size(all.skip(processed + 1), size)
                        =~= keep@ + (seq![im] + images_of_size(all.skip(processed + 1), size)));
                }
                keep.push(im);
            }
            proof {
                processed = processed + 1;
            }
        }
        proof {
            assert(processed == all.len());
            assert(images_of_size(all.skip(processed), size) =~= Seq::<Image>::empty());
            assert(keep@ =~= images_of_size(all, size));
        }
        if keep.len() == 0 {
            return false;
        }
        self.images = keep;
        self.variant = name;
        self.curr_image_pos = 0;
        true
    }
}

} // verus!
