//! The inference session: its lifecycle, the tensor that goes into the
//! segmentation model and the mask that is made of what comes out.
//!
//! The model takes a `[1, 3, 1024, 1024]` tensor of `pixel / 255 - 0.5` and
//! gives a `[1, 1, 1024, 1024]` tensor of foreground probabilities. Tensors
//! are held here as the bit patterns of their binary32 elements.

use crate::binary32::{
    aligned, byte_fraction, difference, floor_capped, fraction_of_byte, is_nan,
    lemma_excess_bound, lemma_pow2_monotonic, lemma_pow2_values, lower_exp, magnitude_of, pack,
    packed, product, sign_bit, small_int, unpack, Binary32, Dyadic,
};
use crate::codec::{
    allocatable, resize_luma, resize_rgba, room_for,
};
use crate::error::AppError;
use crate::raster::{is_mask, AlphaMask, CanonicalImage, Raster};
use vstd::arithmetic::power2::*;
use vstd::prelude::*;
use vstd::string::*;

verus! {

/// The side of the model's square input and output, in pixels.
pub const INPUT_SIZE: u32 = 1024;

/// The pixels of one plane of a tensor.
pub const PLANE: usize = 0x10_0000;

/// Whether the process holds a loaded model.
#[derive(Clone, Copy, Debug, PartialEq, Eq)]
pub struct InferenceSession {
    ready: bool,
}

/// What a request for initialisation has to do.
#[derive(Clone, Copy, Debug, PartialEq, Eq)]
pub enum InitStep {
    /// A session exists: nothing is loaded again.
    AlreadyReady,
    /// The model file is to be loaded and the outcome reported to
    /// `complete_load`.
    Load,
}

/// What a request for initialisation comes to, by whether a session exists
/// and whether the model file is there: with a session, a success that loads
/// nothing; without one, a load where the file is there, and a failure
/// (`None`) where it is not.
pub open spec fn init_outcome(ready: bool, model_exists: bool) -> Option<InitStep> {
    if ready {
        Some(InitStep::AlreadyReady)
    } else if model_exists {
        Some(InitStep::Load)
    } else {
        None
    }
}

/// Whether a session exists once a load has ended: it does if it did
/// before, or if the load succeeded.
pub open spec fn ready_after_load(ready: bool, loaded: bool) -> bool {
    ready || loaded
}

/// A second request for initialisation, after one that loaded the model, is
/// a success that loads nothing and leaves the session as it is, whatever
/// the path and whether or not the file is still there.
pub proof fn law_second_init_changes_nothing(model_exists_again: bool)
    ensures
        init_outcome(false, true) == Some(InitStep::Load),
        ready_after_load(false, true),
        init_outcome(ready_after_load(false, true), model_exists_again) == Some(
            InitStep::AlreadyReady,
        ),
{
}

impl InferenceSession {
    pub closed spec fn is_ready(&self) -> bool {
        self.ready
    }

    /// The state of a process that has not loaded a model.
    pub fn new() -> (s: InferenceSession)
        ensures
            !s.is_ready(),
    {
        InferenceSession { ready: false }
    }

    /// Whether a model is loaded.
    pub fn ready(&self) -> (r: bool)
        ensures
            r == self.is_ready(),
    {
        self.ready
    }

    /// Decides what a request to initialise the session from the model file
    /// at `model_path` has to do; `model_exists` says whether that file is
    /// there. With a session in place the request is a success and nothing is
    /// loaded, whatever the path. Without one, a missing file is
    /// `ModelNotInitialized` with the path, and a file that is there is to be
    /// loaded.
    pub fn init_model(&self, model_path: &str, model_exists: bool) -> (r: Result<
        InitStep,
        AppError,
    >)
        ensures
            match init_outcome(self.is_ready(), model_exists) {
                Some(step) => r == Ok::<InitStep, AppError>(step),
                None => r matches Err(AppError::ModelNotInitialized(Some(p))) && p@
                    == model_path@,
            },
    {
        if self.ready {
            Ok(InitStep::AlreadyReady)
        } else if !model_exists {
            Err(AppError::ModelNotInitialized(Some(String::from_str(model_path))))
        } else {
            Ok(InitStep::Load)
        }
    }

    /// Takes in the outcome of loading the model: a success makes the session
    /// ready, a failure of the engine is `Inference` with the engine's
    /// message and leaves the session as it was. A session that is ready
    /// stays ready.
    pub fn complete_load(&mut self, outcome: Result<(), String>) -> (r: Result<(), AppError>)
        ensures
            final(self).is_ready() == ready_after_load(old(self).is_ready(), outcome is Ok),
            outcome is Ok ==> r is Ok,
            outcome matches Err(m) ==> (r matches Err(AppError::Inference(d)) && d@ == m@),
    {
        match outcome {
            Ok(()) => {
                self.ready = true;
                Ok(())
            },
            Err(m) => Err(AppError::Inference(m)),
        }
    }
}

/// One element of the input tensor: `p / 255 - 0.5` in single precision, as
/// its bit pattern.
pub open spec fn input_value(p: u8) -> int {
    let half = Dyadic { mant: 1, exp: -1 };
    if p >= 128 {
        packed(false, difference(byte_fraction(p), half))
    } else {
        packed(true, difference(half, byte_fraction(p)))
    }
}

/// One element of the input tensor.
pub fn input_value_of(p: u8) -> (bits: u32)
    ensures
        bits == input_value(p),
{
    let f: Binary32 = fraction_of_byte(p);
    let half: Binary32 = Binary32 { mant: 1, exp: -1 };
    proof {
        lemma_pow2_values();
        lemma2_to64();
        let low: int = lower_exp(f@, half@);
        lemma_pow2_monotonic((f.exp - low) as nat, 2);
        lemma_pow2_monotonic((half.exp - low) as nat, 30);
        assert(aligned(f@, low) < 0x100_0000 * pow2(2)) by (nonlinear_arith)
            requires
                aligned(f@, low) == f.mant * pow2((f.exp - low) as nat),
                f.mant < 0x100_0000,
                0 < pow2((f.exp - low) as nat) <= pow2(2),
                pow2(2) == 4,
        ;
        assert(aligned(half@, low) < 0x100_0000 * pow2(7)) by (nonlinear_arith)
            requires
                aligned(half@, low) == 1 * pow2((half.exp - low) as nat),
                pow2((half.exp - low) as nat) <= pow2(30),
                pow2(30) == 0x4000_0000,
                pow2(7) == 128,
        ;
        lemma_excess_bound(aligned(f@, low), 2);
        lemma_excess_bound(aligned(half@, low), 7);
    }
    if p >= 128 {
        pack(false, f.minus(half))
    } else {
        pack(true, half.minus(f))
    }
}

/// The input tensor of an image already resized to 1024 by 1024: three
/// planes, red then green then blue, each row by row; the alpha is dropped.
pub open spec fn input_tensor(resized: Seq<u8>) -> Seq<u32> {
    Seq::new(
        (3 * PLANE) as nat,
        |i: int| input_value(resized[4 * (i % (PLANE as int)) + i / (PLANE as int)]) as u32,
    )
}

/// The input tensor of an image already resized to 1024 by 1024.
pub fn tensor_of(resized: &Vec<u8>) -> (t: Vec<u32>)
    requires
        resized@.len() == 4 * PLANE,
    ensures
        t@ == input_tensor(resized@),
        t@.len() == 3 * PLANE,
{
    let mut table: Vec<u32> = Vec::new();
    let mut v: u32 = 0;
    while v < 256
        invariant
            v <= 256,
            table@.len() == v,
            forall|k: int| 0 <= k < v ==> table@[k] == input_value(k as u8),
        decreases 256 - v,
    {
        table.push(input_value_of(v as u8));
        v = v + 1;
    }
    let mut t: Vec<u32> = Vec::new();
    let mut c: usize = 0;
    while c < 3
        invariant
            c <= 3,
            resized@.len() == 4 * PLANE,
            table@.len() == 256,
            forall|k: int| 0 <= k < 256 ==> table@[k] == input_value(k as u8),
            t@.len() == c * 0x10_0000,
            forall|i: int| 0 <= i < t@.len() ==> t@[i] == input_tensor(resized@)[i],
        decreases 3 - c,
    {
        let mut idx: usize = 0;
        while idx < PLANE
            invariant
                idx <= PLANE,
                c < 3,
                resized@.len() == 4 * PLANE,
                table@.len() == 256,
                forall|k: int| 0 <= k < 256 ==> table@[k] == input_value(k as u8),
                t@.len() == c * 0x10_0000 + idx,
                forall|i: int| 0 <= i < t@.len() ==> t@[i] == input_tensor(resized@)[i],
            decreases PLANE - idx,
        {
            let p: u8 = resized[4 * idx + c];
            proof {
                let i: int = c * 0x10_0000 + idx;
                assert(i % (PLANE as int) == idx && i / (PLANE as int) == c) by {
                    vstd::arithmetic::div_mod::lemma_fundamental_div_mod_converse(
                        i,
                        PLANE as int,
                        c as int,
                        idx as int,
                    );
                }
            }
            t.push(table[p as usize]);
            idx = idx + 1;
        }
        c = c + 1;
    }
    proof {
        assert(t@ =~= input_tensor(resized@));
    }
    t
}

/// Whether the machine has room to resize an image to the model's input.
pub open spec fn can_prepare(img: Raster) -> bool {
    can_prepare_width(img.width)
}

/// Whether the machine has room to resize an image of the given width to
/// the model's input.
pub open spec fn can_prepare_width(width: nat) -> bool {
    allocatable(16 * ((width as u32) as nat * INPUT_SIZE as nat))
}

/// Whether `tensor` is a tensor that the model sees for an image: the
/// image resized to 1024 by 1024, without its alpha, each channel as `pixel
/// / 255 - 0.5`. An image that has the model's size is taken as it is; the
/// samples of a resized one are the resampler's.
pub open spec fn is_model_input(img: Raster, tensor: Seq<u32>) -> bool {
    exists|resized: Seq<u8>|
        {
            &&& resized.len() == 4 * PLANE
            &&& (img.width == INPUT_SIZE && img.height == INPUT_SIZE) ==> resized == img.samples
            &&& tensor == #[trigger] input_tensor(resized)
        }
}

/// One value of the mask: the probability held to `[0, 1]`, times 255 in
/// single precision, truncated. A NaN gives 0.
pub open spec fn mask_value(bits: u32) -> u8 {
    if is_nan(bits) || sign_bit(bits) || bits == 0 {
        0
    } else if bits >= 0x3f80_0000 {
        255
    } else {
        floor_capped(product(magnitude_of(bits), small_int(255)), 255) as u8
    }
}

/// One value of the mask from one element of the output tensor.
pub fn mask_value_of(bits: u32) -> (v: u8)
    ensures
        v == mask_value(bits),
{
    if bits >= 0x8000_0000 || bits == 0 || bits > 0x7f80_0000 {
        0
    } else if bits >= 0x3f80_0000 {
        255
    } else {
        unpack(bits).times(Binary32::small(255)).floor_to(255) as u8
    }
}

/// The mask at the model's resolution.
pub open spec fn model_mask(output: Seq<u32>) -> Seq<u8> {
    Seq::new(output.len(), |i: int| mask_value(output[i]))
}

/// The mask at the model's resolution.
pub fn model_mask_of(output: &Vec<u32>) -> (m: Vec<u8>)
    ensures
        m@ == model_mask(output@),
{
    let n: usize = output.len();
    let mut m: Vec<u8> = Vec::new();
    let mut i: usize = 0;
    while i < n
        invariant
            i <= n,
            n == output@.len(),
            m@.len() == i,
            forall|j: int| 0 <= j < i ==> m@[j] == mask_value(output@[j]),
        decreases n - i,
    {
        m.push(mask_value_of(output[i]));
        i = i + 1;
    }
    proof {
        assert(m@ =~= model_mask(output@));
    }
    m
}

/// An output that is 1.0 everywhere gives a mask that is 255 everywhere at
/// the model's resolution, and one that is 0.0 everywhere a mask that is 0
/// everywhere; for an image of the model's size that is the mask itself.
pub proof fn law_uniform_output_gives_uniform_mask(img: Raster, output: Seq<u32>, mask: Raster)
    requires
        img.width == INPUT_SIZE,
        img.height == INPUT_SIZE,
        is_mask_for(img, output, mask),
    ensures
        (forall|i: int| 0 <= i < output.len() ==> output[i] == 0x3f80_0000) ==> (forall|i: int|
            0 <= i < output.len() ==> #[trigger] mask.samples[i] == 255),
        (forall|i: int| 0 <= i < output.len() ==> output[i] == 0) ==> (forall|i: int|
            0 <= i < output.len() ==> #[trigger] mask.samples[i] == 0),
{
}

/// Whether an output tensor gives a mask for an image: it has one element
/// for each pixel of the model's grid, and the machine has room to resize it.
pub open spec fn gives_mask(img: Raster, output: Seq<u32>) -> bool {
    &&& output.len() == PLANE
    &&& allocatable(16 * (INPUT_SIZE as nat * (img.height as u32) as nat))
    &&& allocatable(16 * ((img.width as u32) as nat * (img.height as u32) as nat))
}

/// Whether `mask` is a mask of an image for an output tensor: the model's
/// mask resized to the image. For an image that has the model's size it is
/// the model's mask itself; the values of a resized one are the resampler's.
pub open spec fn is_mask_for(img: Raster, output: Seq<u32>, mask: Raster) -> bool {
    &&& mask.width == img.width
    &&& mask.height == img.height
    &&& is_mask(mask)
    &&& (img.width == INPUT_SIZE && img.height == INPUT_SIZE) ==> mask.samples == model_mask(
        output,
    )
}

impl InferenceSession {
    /// The first half of an inference: the tensor to run the model on.
    /// Without a session this is `ModelNotInitialized`; an image that the
    /// machine has no room to resize is `InvalidInput`.
    pub fn prepare_inference(&self, img: &CanonicalImage) -> (r: Result<Vec<u32>, AppError>)
        ensures
            !self.is_ready() ==> r == Err::<Vec<u32>, AppError>(
                AppError::ModelNotInitialized(None),
            ),
            self.is_ready() ==> (r is Ok <==> can_prepare(img@)),
            self.is_ready() ==> (r matches Ok(t) ==> is_model_input(img@, t@)),
            self.is_ready() ==> (r matches Err(e) ==> e is InvalidInput),
    {
        if !self.ready {
            return Err(AppError::ModelNotInitialized(None));
        }
        let width: u32 = img.width();
        let height: u32 = img.height();
        let pixels: &Vec<u8> = img.pixels();
        if !room_for(width, INPUT_SIZE) {
            return Err(
                AppError::InvalidInput(String::from_str("Image trop grande pour le modèle")),
            );
        }
        let resized: Vec<u8> = resize_rgba(width, height, pixels, INPUT_SIZE, INPUT_SIZE);
        let tensor: Vec<u32> = tensor_of(&resized);
        proof {
            assert(tensor@ == input_tensor(resized@));
        }
        Ok(tensor)
    }
}

/// Whether `r` is what the engine's outcome gives for an image: the
/// engine's failure as `Inference` with its message, `Inference` too for an
/// output that gives no mask, and else a mask for the output.
pub open spec fn inferred(
    img: Raster,
    outcome: Result<Vec<u32>, String>,
    r: Result<AlphaMask, AppError>,
) -> bool {
    match outcome {
        Err(m) => r matches Err(AppError::Inference(d)) && d@ == m@,
        Ok(output) => if gives_mask(img, output@) {
            r matches Ok(mask) && is_mask_for(img, output@, mask@)
        } else {
            r matches Err(e) && e is Inference
        },
    }
}

/// The second half of an inference: the mask that the engine's outcome
/// gives for the image. A failure of the engine is `Inference` with its
/// message; so is an output tensor of another size than the model's grid, or
/// one that the machine has no room to resize.
pub fn finish_inference(img: &CanonicalImage, outcome: Result<Vec<u32>, String>) -> (r: Result<
    AlphaMask,
    AppError,
>)
    ensures
        inferred(img@, outcome, r),
        r is Ok <==> (outcome matches Ok(output) && gives_mask(img@, output@)),
        r matches Ok(mask) ==> is_mask_for(img@, outcome->Ok_0@, mask@),
        r matches Err(e) ==> e is Inference,
        outcome matches Err(m) ==> (r matches Err(AppError::Inference(d)) && d@ == m@),
{
    let output: Vec<u32> = match outcome {
        Ok(output) => output,
        Err(m) => {
            return Err(AppError::Inference(m));
        },
    };
    let width: u32 = img.width();
    let height: u32 = img.height();
    let raw: Vec<u8> = model_mask_of(&output);
    if raw.len() != PLANE || !room_for(INPUT_SIZE, height) || !room_for(width, height) {
        return Err(
            AppError::Inference(String::from_str("Impossible de créer GrayImage depuis le masque")),
        );
    }
    let values: Vec<u8> = resize_luma(INPUT_SIZE, INPUT_SIZE, &raw, width, height);
    let mask = AlphaMask::assemble(width, height, values);
    proof {
        assert(mask@.samples == values@);
    }
    Ok(mask)
}

/// Runs one inference on an image: readies the tensor, has `engine` run
/// the model on it, and makes the mask of what the engine gives.
///
/// Without a session the failure is `ModelNotInitialized` and the engine is
/// not called. Whatever the engine gives for the image's tensor, the result
/// is what `finish_inference` makes of it.
pub fn run_inference<F: FnOnce(Vec<u32>) -> Result<Vec<u32>, String>>(
    session: &InferenceSession,
    img: &CanonicalImage,
    engine: F,
) -> (r: Result<AlphaMask, AppError>)
    requires
        forall|t: Vec<u32>| call_requires(engine, (t,)),
    ensures
        !session.is_ready() ==> r == Err::<AlphaMask, AppError>(AppError::ModelNotInitialized(None)),
        session.is_ready() && !can_prepare(img@) ==> (r matches Err(e) && e is InvalidInput),
        session.is_ready() && can_prepare(img@) ==> exists|
            t: Vec<u32>,
            outcome: Result<Vec<u32>, String>,
        |
            {
                &&& is_model_input(img@, t@)
                &&& call_ensures(engine, (t,), outcome)
                &&& inferred(img@, outcome, r)
            },
        r matches Ok(mask) ==> is_mask(mask@) && mask@.width == img@.width && mask@.height
            == img@.height,
{
    let tensor: Vec<u32> = match session.prepare_inference(img) {
        Ok(tensor) => tensor,
        Err(e) => {
            return Err(e);
        },
    };
    let ghost t: Vec<u32> = tensor;
    let outcome: Result<Vec<u32>, String> = engine(tensor);
    let ghost given: Result<Vec<u32>, String> = outcome;
    let r = finish_inference(img, outcome);
    proof {
        assert(is_model_input(img@, t@) && call_ensures(engine, (t,), given) && inferred(
            img@,
            given,
            r,
        ));
    }
    r
}

} // verus!
