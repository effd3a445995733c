//! Encoding images: padding, upload, pipeline, and cropping of what comes
//! back.

use crate::device::{GpuEncoder, Recording};
use crate::float::Float32;
use crate::lossy_encoder::{FilterParameters, LossyEncoder};
use crate::padding::{crop_to_original, cropped, pad_to_alignment, padded};
use crate::persistent::{upload_plane_steps, GpuPlane};
use crate::pipeline::{pipeline_steps, uniform, Planes};
use crate::quality::{block_means_to_qac_field, block_qac, float, greatest_of, least_of, TWO};
use vstd::prelude::*;

verus! {

/// An image as its red, green and blue planes.
pub type Image = (Seq<Float32>, Seq<Float32>, Seq<Float32>);

/// A plane grown to the padded size of an encoder.
pub open spec fn padded_plane(le: LossyEncoder, plane: Seq<Float32>) -> Seq<Float32> {
    padded(
        plane,
        le.width as int,
        le.height as int,
        le.padded_width as int,
        le.padded_height as int,
    )
}

/// The upload of an image.
#[verifier::opaque]
pub open spec fn upload_image_steps(s0: Recording, le: LossyEncoder, image: Image) -> (
    Recording,
    Planes,
) {
    let w = le.padded_width;
    let h = le.padded_height;
    let (s1, r) = upload_plane_steps(s0, padded_plane(le, image.0), w, h);
    let (s2, g) = upload_plane_steps(s1, padded_plane(le, image.1), w, h);
    let (s3, b) = upload_plane_steps(s2, padded_plane(le, image.2), w, h);
    (s3, (r, g, b))
}

/// What encoding an image with a scale per block records and returns.
pub open spec fn encode_steps(
    s0: Recording,
    le: LossyEncoder,
    image: Image,
    qac: Seq<Float32>,
    f: FilterParameters,
    inv_sigma: Seq<Float32>,
) -> (Recording, Planes) {
    let (s1, p) = upload_image_steps(s0, le, image);
    pipeline_steps(s1, le, p.0, p.1, p.2, qac, f, inv_sigma)
}

/// One pipeline after the other over planes already uploaded: the first `n`
/// of the fields `qacs`, with their filter strengths.
pub open spec fn pipelines_steps(
    s0: Recording,
    le: LossyEncoder,
    p: Planes,
    qacs: Seq<Seq<Float32>>,
    f: FilterParameters,
    inv_sigmas: Seq<Seq<Float32>>,
    n: int,
) -> (Recording, Seq<Planes>)
    decreases n,
{
    if n <= 0 {
        (s0, Seq::empty())
    } else {
        let (s1, before) = pipelines_steps(s0, le, p, qacs, f, inv_sigmas, n - 1);
        let (s2, rgb) = pipeline_steps(
            s1,
            le,
            p.0,
            p.1,
            p.2,
            qacs[n - 1],
            f,
            inv_sigmas[n - 1],
        );
        (s2, before.push(rgb))
    }
}

/// What encoding an image several times over records and returns: one upload,
/// and a pipeline for each field of scales.
pub open spec fn encode_many_steps(
    s0: Recording,
    le: LossyEncoder,
    image: Image,
    qacs: Seq<Seq<Float32>>,
    f: FilterParameters,
    inv_sigmas: Seq<Seq<Float32>>,
) -> (Recording, Seq<Planes>) {
    let (s1, p) = upload_image_steps(s0, le, image);
    pipelines_steps(s1, le, p, qacs, f, inv_sigmas, qacs.len() as int)
}

/// The contents of vectors.
pub open spec fn contents(v: Seq<Vec<Float32>>) -> Seq<Seq<Float32>> {
    Seq::new(v.len(), |i: int| v[i]@)
}

/// The same scale for all blocks, once for each setting.
pub open spec fn uniform_each(settings: Seq<Float32>, n: nat) -> Seq<Seq<Float32>> {
    Seq::new(settings.len(), |i: int| uniform(settings[i], n))
}

impl LossyEncoder {
    /// Whether a plane has the size of the encoder's images.
    pub open spec fn fits_image(self, plane: Seq<Float32>) -> bool {
        plane.len() == self.width * self.height
    }

    /// Pads an image and puts it on the device.
    fn upload_image(&self, enc: &mut GpuEncoder, r: &[Float32], g: &[Float32], b: &[Float32]) -> (p:
        Planes)
        requires
            old(enc)@.wf(),
            self.wf(),
            self.countable(),
            self.padded_width * self.padded_height <= usize::MAX,
            self.fits_image(r@),
            self.fits_image(g@),
            self.fits_image(b@),
        ensures
            (final(enc)@, p) == upload_image_steps(old(enc)@, *self, (r@, g@, b@)),
            final(enc)@.wf(),
            old(enc)@.grows_into(final(enc)@),
            self.sized(p.0),
            self.sized(p.1),
            self.sized(p.2),
            p.0.lives_in(final(enc)@),
            p.1.lives_in(final(enc)@),
            p.2.lives_in(final(enc)@),
    {
        proof {
            reveal(upload_image_steps);
        }
        let w: usize = self.width as usize;
        let h: usize = self.height as usize;
        let pw: usize = self.padded_width as usize;
        let ph: usize = self.padded_height as usize;
        let r_pad: Vec<Float32> = pad_to_alignment(r, w, h, pw, ph);
        let g_pad: Vec<Float32> = pad_to_alignment(g, w, h, pw, ph);
        let b_pad: Vec<Float32> = pad_to_alignment(b, w, h, pw, ph);
        let g_r: GpuPlane = enc.upload_plane(
            r_pad.as_slice(),
            self.padded_width,
            self.padded_height,
        );
        let g_g: GpuPlane = enc.upload_plane(
            g_pad.as_slice(),
            self.padded_width,
            self.padded_height,
        );
        let g_b: GpuPlane = enc.upload_plane(
            b_pad.as_slice(),
            self.padded_width,
            self.padded_height,
        );
        (g_r, g_g, g_b)
    }

    /// Crops the planes that came back from the device to the size of the
    /// image.
    pub fn crop_planes(&self, r: &[Float32], g: &[Float32], b: &[Float32]) -> (out: (
        Vec<Float32>,
        Vec<Float32>,
        Vec<Float32>,
    ))
        requires
            self.wf(),
            r@.len() == self.padded_width * self.padded_height,
            g@.len() == self.padded_width * self.padded_height,
            b@.len() == self.padded_width * self.padded_height,
        ensures
            out.0@ == cropped(
                r@,
                self.padded_width as int,
                self.width as int,
                self.height as int,
            ),
            out.1@ == cropped(
                g@,
                self.padded_width as int,
                self.width as int,
                self.height as int,
            ),
            out.2@ == cropped(
                b@,
                self.padded_width as int,
                self.width as int,
                self.height as int,
            ),
    {
        let w: usize = self.width as usize;
        let h: usize = self.height as usize;
        let pw: usize = self.padded_width as usize;
        proof {
            let p = self.padded_width as int;
            assert((h - 1) * p + w <= p * self.padded_height) by (nonlinear_arith)
                requires
                    1 <= h <= self.padded_height,
                    w <= p,
                    p >= 0,
            ;
        }
        (
            crop_to_original(r, pw, w, h),
            crop_to_original(g, pw, w, h),
            crop_to_original(b, pw, w, h),
        )
    }

    /// Records the encoding of an image with one scale for all blocks, and
    /// returns the planes that are read back.
    pub fn encode_one(
        &self,
        enc: &mut GpuEncoder,
        r: &[Float32],
        g: &[Float32],
        b: &[Float32],
        qac_qm: Float32,
        f: &FilterParameters,
        inv_sigma: &[Float32],
    ) -> (rgb: Planes)
        requires
            old(enc)@.wf(),
            self.wf(),
            self.countable(),
            self.lives_in(old(enc)@),
            self.padded_width * self.padded_height <= usize::MAX,
            self.fits_image(r@),
            self.fits_image(g@),
            self.fits_image(b@),
            inv_sigma@.len() == self.num_blocks,
        ensures
            (final(enc)@, rgb) == encode_steps(
                old(enc)@,
                *self,
                (r@, g@, b@),
                uniform(qac_qm, self.num_blocks as nat),
                *f,
                inv_sigma@,
            ),
            final(enc)@.wf(),
            self.lives_in(final(enc)@),
    {
        let p: Planes = self.upload_image(enc, r, g, b);
        self.run_pipeline(enc, &p.0, &p.1, &p.2, qac_qm, f, inv_sigma)
    }

    /// Records the encoding of an image with a scale per block, and returns
    /// the planes that are read back.
    pub fn encode_one_adaptive(
        &self,
        enc: &mut GpuEncoder,
        r: &[Float32],
        g: &[Float32],
        b: &[Float32],
        aq_field: &[Float32],
        f: &FilterParameters,
        inv_sigma: &[Float32],
    ) -> (rgb: Planes)
        requires
            old(enc)@.wf(),
            self.wf(),
            self.countable(),
            self.lives_in(old(enc)@),
            self.padded_width * self.padded_height <= usize::MAX,
            self.fits_image(r@),
            self.fits_image(g@),
            self.fits_image(b@),
            aq_field@.len() == self.num_blocks,
            inv_sigma@.len() == self.num_blocks,
        ensures
            (final(enc)@, rgb) == encode_steps(
                old(enc)@,
                *self,
                (r@, g@, b@),
                aq_field@,
                *f,
                inv_sigma@,
            ),
            final(enc)@.wf(),
            self.lives_in(final(enc)@),
    {
        let p: Planes = self.upload_image(enc, r, g, b);
        self.run_pipeline_with_qac(enc, &p.0, &p.1, &p.2, aq_field, f, inv_sigma)
    }

    /// Records the encoding of one image at several settings, each one scale
    /// for all blocks. The image is uploaded once.
    pub fn encode_many(
        &self,
        enc: &mut GpuEncoder,
        r: &[Float32],
        g: &[Float32],
        b: &[Float32],
        qac_settings: &[Float32],
        f: &FilterParameters,
        inv_sigmas: &[Vec<Float32>],
    ) -> (out: Vec<Planes>)
        requires
            old(enc)@.wf(),
            self.wf(),
            self.countable(),
            self.lives_in(old(enc)@),
            self.padded_width * self.padded_height <= usize::MAX,
            self.fits_image(r@),
            self.fits_image(g@),
            self.fits_image(b@),
            inv_sigmas@.len() == qac_settings@.len(),
            forall|i: int|
                0 <= i < inv_sigmas@.len() ==> (#[trigger] inv_sigmas@[i])@.len()
                    == self.num_blocks,
        ensures
            (final(enc)@, out@) == encode_many_steps(
                old(enc)@,
                *self,
                (r@, g@, b@),
                uniform_each(qac_settings@, self.num_blocks as nat),
                *f,
                contents(inv_sigmas@),
            ),
            out@.len() == qac_settings@.len(),
            final(enc)@.wf(),
    {
        let p: Planes = self.upload_image(enc, r, g, b);
        let ghost s1 = enc@;
        let ghost qacs = uniform_each(qac_settings@, self.num_blocks as nat);
        let ghost sigmas = contents(inv_sigmas@);
        let mut out: Vec<Planes> = Vec::new();
        let mut i: usize = 0;
        while i < qac_settings.len()
            invariant
                i <= qac_settings@.len(),
                inv_sigmas@.len() == qac_settings@.len(),
                forall|j: int|
                    0 <= j < inv_sigmas@.len() ==> (#[trigger] inv_sigmas@[j])@.len()
                        == self.num_blocks,
                qacs == uniform_each(qac_settings@, self.num_blocks as nat),
                sigmas == contents(inv_sigmas@),
                self.wf(),
                self.countable(),
                enc@.wf(),
                s1.grows_into(enc@),
                self.lives_in(s1),
                self.sized(p.0),
                self.sized(p.1),
                self.sized(p.2),
                p.0.lives_in(s1),
                p.1.lives_in(s1),
                p.2.lives_in(s1),
                out@.len() == i,
                (enc@, out@) == pipelines_steps(s1, *self, p, qacs, *f, sigmas, i as int),
            decreases qac_settings@.len() - i,
        {
            let ghost before = enc@;
            let rgb: Planes = self.run_pipeline(
                enc,
                &p.0,
                &p.1,
                &p.2,
                qac_settings[i],
                f,
                inv_sigmas[i].as_slice(),
            );
            proof {
                crate::device::lemma_grows_transitive(s1, before, enc@);
            }
            out.push(rgb);
            i = i + 1;
        }
        out
    }

    /// Records the encoding of one image at several distances, with scales per
    /// block that follow from the mask means of the blocks. The image is
    /// uploaded once.
    pub fn encode_many_with_aq(
        &self,
        enc: &mut GpuEncoder,
        r: &[Float32],
        g: &[Float32],
        b: &[Float32],
        block_means: &[Float32],
        distances: &[Float32],
        f: &FilterParameters,
        inv_sigmas: &[Vec<Float32>],
    ) -> (out: Vec<Planes>)
        requires
            old(enc)@.wf(),
            self.wf(),
            self.countable(),
            self.lives_in(old(enc)@),
            self.padded_width * self.padded_height <= usize::MAX,
            self.fits_image(r@),
            self.fits_image(g@),
            self.fits_image(b@),
            block_means@.len() == self.num_blocks,
            inv_sigmas@.len() == distances@.len(),
            forall|i: int|
                0 <= i < inv_sigmas@.len() ==> (#[trigger] inv_sigmas@[i])@.len()
                    == self.num_blocks,
        ensures
            (final(enc)@, out@) == encode_many_steps(
                old(enc)@,
                *self,
                (r@, g@, b@),
                adaptive_each(block_means@, distances@),
                *f,
                contents(inv_sigmas@),
            ),
            out@.len() == distances@.len(),
            final(enc)@.wf(),
    {
        let p: Planes = self.upload_image(enc, r, g, b);
        let ghost s1 = enc@;
        let ghost qacs = adaptive_each(block_means@, distances@);
        let ghost sigmas = contents(inv_sigmas@);
        let mut out: Vec<Planes> = Vec::new();
        let mut i: usize = 0;
        while i < distances.len()
            invariant
                i <= distances@.len(),
                inv_sigmas@.len() == distances@.len(),
                forall|j: int|
                    0 <= j < inv_sigmas@.len() ==> (#[trigger] inv_sigmas@[j])@.len()
                        == self.num_blocks,
                block_means@.len() == self.num_blocks,
                qacs == adaptive_each(block_means@, distances@),
                sigmas == contents(inv_sigmas@),
                self.wf(),
                self.countable(),
                enc@.wf(),
                s1.grows_into(enc@),
                self.lives_in(s1),
                self.sized(p.0),
                self.sized(p.1),
                self.sized(p.2),
                p.0.lives_in(s1),
                p.1.lives_in(s1),
                p.2.lives_in(s1),
                out@.len() == i,
                (enc@, out@) == pipelines_steps(s1, *self, p, qacs, *f, sigmas, i as int),
            decreases distances@.len() - i,
        {
            let ghost before = enc@;
            let field: Vec<Float32> = block_means_to_qac_field(block_means, distances[i]);
            assert(field@ =~= qacs[i as int]);
            let rgb: Planes = self.run_pipeline_with_qac(
                enc,
                &p.0,
                &p.1,
                &p.2,
                field.as_slice(),
                f,
                inv_sigmas[i].as_slice(),
            );
            proof {
                crate::device::lemma_grows_transitive(s1, before, enc@);
            }
            out.push(rgb);
            i = i + 1;
        }
        out
    }

    /// Records the encoding of an image at a distance, with scales per block
    /// that follow from the mask means of the blocks.
    pub fn encode_one_with_aq(
        &self,
        enc: &mut GpuEncoder,
        r: &[Float32],
        g: &[Float32],
        b: &[Float32],
        block_means: &[Float32],
        distance: Float32,
        f: &FilterParameters,
        inv_sigma: &[Float32],
    ) -> (rgb: Planes)
        requires
            old(enc)@.wf(),
            self.wf(),
            self.countable(),
            self.lives_in(old(enc)@),
            self.padded_width * self.padded_height <= usize::MAX,
            self.fits_image(r@),
            self.fits_image(g@),
            self.fits_image(b@),
            block_means@.len() == self.num_blocks,
            inv_sigma@.len() == self.num_blocks,
        ensures
            (final(enc)@, rgb) == encode_steps(
                old(enc)@,
                *self,
                (r@, g@, b@),
                adaptive_field(block_means@, distance),
                *f,
                inv_sigma@,
            ),
            final(enc)@.wf(),
            self.lives_in(final(enc)@),
    {
        let field: Vec<Float32> = block_means_to_qac_field(block_means, distance);
        assert(field@ =~= adaptive_field(block_means@, distance));
        self.encode_one_adaptive(enc, r, g, b, field.as_slice(), f, inv_sigma)
    }
}

/// The scale of each block from its mask mean, at a distance.
pub open spec fn adaptive_field(block_means: Seq<Float32>, distance: Float32) -> Seq<Float32> {
    Seq::new(
        block_means.len(),
        |i: int|
            block_qac(
                block_means[i],
                least_of(block_means),
                greatest_of(block_means),
                distance,
                float(TWO),
            ),
    )
}

/// The adaptive fields at several distances.
pub open spec fn adaptive_each(block_means: Seq<Float32>, distances: Seq<Float32>) -> Seq<
    Seq<Float32>,
> {
    Seq::new(distances.len(), |i: int| adaptive_field(block_means, distances[i]))
}

/// Encoding at one setting through the batch records what encoding at that
/// setting records.
pub proof fn law_batch_of_one_is_one(
    s0: Recording,
    le: LossyEncoder,
    image: Image,
    qac: Seq<Float32>,
    f: FilterParameters,
    inv_sigma: Seq<Float32>,
)
    ensures
        encode_many_steps(s0, le, image, seq![qac], f, seq![inv_sigma]).0 == encode_steps(
            s0,
            le,
            image,
            qac,
            f,
            inv_sigma,
        ).0,
        encode_many_steps(s0, le, image, seq![qac], f, seq![inv_sigma]).1 == seq![
            encode_steps(s0, le, image, qac, f, inv_sigma).1,
        ],
{
    reveal_with_fuel(pipelines_steps, 2);
    let many = encode_many_steps(s0, le, image, seq![qac], f, seq![inv_sigma]);
    let one = encode_steps(s0, le, image, qac, f, inv_sigma);
    assert(Seq::<Planes>::empty().push(one.1) =~= seq![one.1]);
    assert(seq![qac][0] == qac);
}

} // verus!
