//! The processing of one image from its bytes to its encoded result, and the
//! sequencing of a batch.
//!
//! Reading files, drawing vector images and running the model are the
//! caller's part. The functions
//! here say what is to be done next and take in what came of it, so that a
//! batch reports every item exactly once, in order, whatever fails.

use crate::codec::{file_name_of, file_stem_of, path_file_name, path_file_stem, png_encoding};
use crate::compositor::{apply_mask, blurred, composited, BackgroundColor};
use crate::encoder::{encode_base64_png, encode_png, encoded_as};
use crate::error::AppError;
use crate::ml_engine::{
    can_prepare, can_prepare_width, finish_inference, gives_mask, inferred, is_mask_for,
    is_model_input, run_inference, InferenceSession,
};
use crate::normalizer::{
    can_render, format_key, holds_limit, load_image, load_image_from_bytes, raster_loaded,
    raster_loads, raster_size, supported_path,
};
use crate::raster::{is_rgba, AlphaMask, CanonicalImage, Raster};
use vstd::prelude::*;
use vstd::string::*;

verus! {

/// What a caller chooses for one processing call.
#[derive(Clone, Copy, Debug, PartialEq, Eq)]
pub struct ProcessOptions {
    pub background: BackgroundColor,
}

/// The outcome of one item of a batch: either its result, as a data URL, or
/// the message of its failure.
#[derive(Debug, PartialEq, Eq)]
pub struct BatchProgress {
    pub index: usize,
    pub total: usize,
    pub name: String,
    pub result_data_url: Option<String>,
    pub error: Option<String>,
}

impl BatchProgress {
    /// The item has a result and no error.
    pub open spec fn is_completed(&self) -> bool {
        self.result_data_url is Some && self.error is None
    }

    /// The item has an error and no result.
    pub open spec fn is_failed(&self) -> bool {
        self.result_data_url is None && self.error is Some
    }

    /// The outcome of an item that was processed.
    pub fn completed(index: usize, total: usize, name: String, data_url: String) -> (p:
        BatchProgress)
        ensures
            p.is_completed(),
            p.index == index,
            p.total == total,
            p.name == name,
            p.result_data_url == Some(data_url),
    {
        BatchProgress { index, total, name, result_data_url: Some(data_url), error: None }
    }

    /// The outcome of an item that failed, with the failure's message.
    pub fn failed(index: usize, total: usize, name: String, failure: &AppError) -> (p:
        BatchProgress)
        ensures
            p.is_failed(),
            p.index == index,
            p.total == total,
            p.name == name,
            p.error->0@ == failure.text(),
    {
        BatchProgress {
            index,
            total,
            name,
            result_data_url: None,
            error: Some(failure.detail()),
        }
    }
}

/// The name under which an item is reported: the final component of its
/// path, or "inconnu" where the path has none.
pub open spec fn item_name(path: Seq<char>) -> Seq<char> {
    match path_file_name(path) {
        Some(name) => name,
        None => "inconnu"@,
    }
}

/// The name under which an item is reported.
pub fn item_name_of(path: &str) -> (name: String)
    ensures
        name@ == item_name(path@),
{
    match file_name_of(path) {
        Some(name) => name,
        None => String::from_str("inconnu"),
    }
}

/// The file name under which a result is saved: the stem of the item's
/// name, or "output" where it has none, followed by "_nobg.png".
pub open spec fn output_name(name: Seq<char>) -> Seq<char> {
    (match path_file_stem(name) {
        Some(stem) => stem,
        None => "output"@,
    }) + "_nobg.png"@
}

/// The file name under which a result is saved.
pub fn output_file_name(name: &str) -> (file: String)
    ensures
        file@ == output_name(name@),
{
    let mut file: String = match file_stem_of(name) {
        Some(stem) => stem,
        None => String::from_str("output"),
    };
    file.append("_nobg.png");
    file
}

/// Reports whether the model file is in place: its path where it is,
/// `ModelNotInitialized` with the path where it is not.
pub fn check_model(model_path: &str, model_exists: bool) -> (r: Result<String, AppError>)
    ensures
        model_exists ==> (r matches Ok(p) && p@ == model_path@),
        !model_exists ==> (r matches Err(AppError::ModelNotInitialized(Some(p))) && p@
            == model_path@),
{
    if model_exists {
        Ok(String::from_str(model_path))
    } else {
        Err(AppError::ModelNotInitialized(Some(String::from_str(model_path))))
    }
}

/// An image that is ready for the model: the canonical image and the tensor
/// to run the model on.
#[derive(Debug)]
pub struct Prepared {
    pub image: CanonicalImage,
    pub tensor: Vec<u32>,
}

/// Readies a canonical image for the model.
fn prepare(session: &InferenceSession, image: CanonicalImage) -> (r: Result<Prepared, AppError>)
    ensures
        !session.is_ready() ==> r matches Err(AppError::ModelNotInitialized(None)),
        session.is_ready() ==> (r is Ok <==> can_prepare(image@)),
        r matches Ok(p) ==> (p.image@ == image@ && is_model_input(image@, p.tensor@) && is_rgba(
            p.image@,
        )),
        r matches Err(e) ==> (e is ModelNotInitialized || e is InvalidInput),
{
    let samples: usize = image.pixels().len();
    match session.prepare_inference(&image) {
        Ok(tensor) => Ok(Prepared { image, tensor }),
        Err(e) => Err(e),
    }
}

/// What is said of a file that could not be read: the path and the reason.
pub open spec fn unreadable(path: Seq<char>, reason: Seq<char>) -> Seq<char> {
    "Impossible d'ouvrir "@ + path + " : "@ + reason
}

/// Whether a raster file can be readied for the model: it loads, and the
/// machine has room to resize the image to the model's input.
pub open spec fn raster_prepares(data: Seq<u8>, path: Seq<char>) -> bool {
    raster_loads(data, path) && can_prepare_width(raster_size(data, path).0)
}

/// Whether `r` is what the first half of processing gives for the content
/// `data` of the file at `path`.
///
/// A path without a supported extension is `UnsupportedFormat` with the
/// path. For a raster file: data that does not load is `InvalidInput`,
/// without a session the failure is `ModelNotInitialized`, an image that
/// the machine has no room to resize is `InvalidInput`, and any other is
/// prepared: the image is the decoder's, normalised.
pub open spec fn started(
    ready: bool,
    path: Seq<char>,
    data: Seq<u8>,
    r: Result<Prepared, AppError>,
) -> bool {
    if !supported_path(path) {
        r matches Err(AppError::UnsupportedFormat(p)) && p@ == path
    } else if format_key(path) != Some("svg"@) {
        if !raster_loads(data, path) {
            r matches Err(e) && e is InvalidInput
        } else if !ready {
            r matches Err(AppError::ModelNotInitialized(None))
        } else if !raster_prepares(data, path) {
            r matches Err(e) && e is InvalidInput
        } else {
            r matches Ok(p) && raster_loaded(data, path, p.image@)
        }
    } else {
        r matches Err(e) ==> e is InvalidInput || e is ModelNotInitialized
    }
}

/// The first half of processing a file: from what reading the file at
/// `path` gave to the image and the tensor to run the model on; `render`
/// draws the file where it is a vector image.
///
/// A file that could not be read is `InvalidInput` with the path and the
/// reader's reason. A path without a supported extension is
/// `UnsupportedFormat`, data that cannot be made an image of is
/// `InvalidInput`, and without a session the failure is `ModelNotInitialized`.
pub fn start_processing<R: FnOnce(resvg::usvg::Tree, u32, u32, u32) -> Option<Vec<u8>>>(
    session: &InferenceSession,
    path: &str,
    content: Result<Vec<u8>, String>,
    render: R,
) -> (r: Result<Prepared, AppError>)
    requires
        can_render(render),
    ensures
        match content {
            Err(m) => r matches Err(AppError::InvalidInput(d)) && d@ == unreadable(path@, m@),
            Ok(data) => started(session.is_ready(), path@, data@, r),
        },
        r matches Ok(p) ==> (is_rgba(p.image@) && holds_limit(p.image@) && is_model_input(
            p.image@,
            p.tensor@,
        )
            && session.is_ready() && content is Ok),
        r matches Err(e) ==> (e is UnsupportedFormat || e is InvalidInput || e
            is ModelNotInitialized),
{
    let data: Vec<u8> = match content {
        Ok(data) => data,
        Err(m) => {
            let mut d: String = String::from_str("Impossible d'ouvrir ");
            d.append(path);
            d.append(" : ");
            d.append(m.as_str());
            return Err(AppError::InvalidInput(d));
        },
    };
    match load_image(path, data.as_slice(), render) {
        Ok(image) => prepare(session, image),
        Err(e) => Err(e),
    }
}

/// The first half of processing a single file, whose failure goes to the
/// caller as it is: `file` is what reading the file at `path` gave, or
/// `None` where no file is there.
///
/// Without a session the failure is `ModelNotInitialized`, whatever the
/// file; a file that is not there is `FileNotFound` with the path; the rest
/// is as in `start_processing`.
pub fn process_single_image<R: FnOnce(resvg::usvg::Tree, u32, u32, u32) -> Option<Vec<u8>>>(
    session: &InferenceSession,
    path: &str,
    file: Option<Result<Vec<u8>, String>>,
    render: R,
) -> (r: Result<Prepared, AppError>)
    requires
        can_render(render),
    ensures
        !session.is_ready() ==> r matches Err(AppError::ModelNotInitialized(None)),
        session.is_ready() ==> match file {
            None => r matches Err(AppError::FileNotFound(p)) && p@ == path@,
            Some(Err(m)) => r matches Err(AppError::InvalidInput(d)) && d@ == unreadable(
                path@,
                m@,
            ),
            Some(Ok(data)) => started(true, path@, data@, r),
        },
        r matches Ok(p) ==> (is_rgba(p.image@) && holds_limit(p.image@) && is_model_input(
            p.image@,
            p.tensor@,
        )
            && file matches Some(Ok(_))),
{
    if !session.ready() {
        return Err(AppError::ModelNotInitialized(None));
    }
    match file {
        Some(content) => start_processing(session, path, content, render),
        None => Err(AppError::FileNotFound(String::from_str(path))),
    }
}

/// The first half of processing an image held in memory, such as one taken
/// from the clipboard; `None` stands for no image being held, which is
/// `Clipboard`, and the only failure of that kind.
pub fn start_processing_bytes(session: &InferenceSession, stored: Option<&Vec<u8>>) -> (r: Result<
    Prepared,
    AppError,
>)
    ensures
        stored is None ==> (r matches Err(AppError::Clipboard(d)) && d@
            == "Aucune image clipboard mémorisée"@),
        stored is Some ==> (r matches Err(e) ==> (e is InvalidInput || e is ModelNotInitialized)),
        r matches Ok(p) ==> (is_rgba(p.image@) && holds_limit(p.image@) && is_model_input(
            p.image@,
            p.tensor@,
        )
            && session.is_ready() && stored is Some),
{
    let bytes: &Vec<u8> = match stored {
        Some(bytes) => bytes,
        None => {
            return Err(AppError::Clipboard(String::from_str("Aucune image clipboard mémorisée")));
        },
    };
    match load_image_from_bytes(bytes.as_slice()) {
        Ok(image) => prepare(session, image),
        Err(e) => Err(e),
    }
}

/// Whether `r` is what compositing an image under a mask and encoding the
/// composite gives.
pub open spec fn composed(
    image: Raster,
    mask: Raster,
    options: ProcessOptions,
    r: Result<String, AppError>,
) -> bool {
    encoded_as(composited(image, blurred(mask), options.background), r)
}

/// Whether `r` is what the second half of processing gives for an image
/// and the model's outcome: the engine's failure as `Inference` with its
/// message; `Inference` too for an output that gives no mask; and else the
/// encoding of the image composited under a mask for the output.
pub open spec fn finished_as(
    image: Raster,
    outcome: Result<Vec<u32>, String>,
    options: ProcessOptions,
    r: Result<String, AppError>,
) -> bool {
    match outcome {
        Err(m) => r matches Err(AppError::Inference(d)) && d@ == m@,
        Ok(output) => if gives_mask(image, output@) {
            exists|mask: Raster|
                is_mask_for(image, output@, mask) && #[trigger] composed(image, mask, options, r)
        } else {
            r matches Err(e) && e is Inference
        },
    }
}

/// Softens the mask, composites the image under it over the chosen
/// background and encodes the composite as a data URL.
pub fn compose(image: &CanonicalImage, mask: &AlphaMask, options: &ProcessOptions) -> (r: Result<
    String,
    AppError,
>)
    requires
        mask@.width == image@.width,
        mask@.height == image@.height,
    ensures
        composed(image@, mask@, *options, r),
{
    let result: CanonicalImage = apply_mask(image, mask, &options.background);
    encode_base64_png(&result)
}

/// The second half of processing an image: from the model's outcome to the
/// result as a data URL. The mask is made of the output, softened, and the
/// image is composited over the chosen background and encoded as PNG.
///
/// A failure of the engine, or an output that gives no mask, is `Inference`;
/// a failure to encode is `Encoding`.
pub fn finish_processing(
    image: &CanonicalImage,
    outcome: Result<Vec<u32>, String>,
    options: &ProcessOptions,
) -> (r: Result<String, AppError>)
    ensures
        finished_as(image@, outcome, *options, r),
        r matches Err(e) ==> (e is Inference || e is Encoding),
{
    match finish_inference(image, outcome) {
        Ok(mask) => {
            let r = compose(image, &mask, options);
            proof {
                assert(is_mask_for(image@, outcome->Ok_0@, mask@) && composed(
                    image@,
                    mask@,
                    *options,
                    r,
                ));
            }
            r
        },
        Err(e) => Err(e),
    }
}

/// How many bytes an RGBA image of the given size has.
pub open spec fn clipboard_len(width: usize, height: usize) -> nat {
    4 * (width as nat * height as nat)
}

/// Whether raw RGBA bytes taken from the clipboard hold an image of the
/// given size: the size has area, and the bytes are enough for it.
pub open spec fn clipboard_image_ok(width: usize, height: usize, len: nat) -> bool {
    &&& 0 < width <= u32::MAX
    &&& 0 < height <= u32::MAX
    &&& len >= clipboard_len(width, height)
}

/// The PNG stream of an image taken from the clipboard as raw RGBA bytes,
/// which is what is kept of it and what is processed. Of a buffer longer
/// than the image the first bytes are the image, and the rest is left out.
/// Bytes too few for the given size, or a size without area, are
/// `Clipboard`; a failure to encode is `Encoding`.
pub fn clipboard_png(width: usize, height: usize, bytes: Vec<u8>) -> (r: Result<Vec<u8>, AppError>)
    ensures
        !clipboard_image_ok(width, height, bytes@.len()) ==> (r matches Err(
            AppError::Clipboard(d),
        ) && d@ == "Buffer clipboard invalide"@),
        clipboard_image_ok(width, height, bytes@.len()) ==> match png_encoding(
            width as u32,
            height as u32,
            bytes@.subrange(0, clipboard_len(width, height) as int),
        ) {
            Ok(png) => r matches Ok(out) && out@ == png,
            Err(m) => r matches Err(AppError::Encoding(d)) && d@ == "Encodage PNG : "@ + m,
        },
{
    if width == 0 || height == 0 || width > u32::MAX as usize || height > u32::MAX as usize {
        return Err(AppError::Clipboard(String::from_str("Buffer clipboard invalide")));
    }
    proof {
        assert(width as nat * height as nat <= 0xffff_ffff * 0xffff_ffff) by (nonlinear_arith)
            requires
                width <= 0xffff_ffff,
                height <= 0xffff_ffff,
        ;
    }
    let needed: u128 = 4 * (width as u128 * height as u128);
    if (bytes.len() as u128) < needed {
        return Err(AppError::Clipboard(String::from_str("Buffer clipboard invalide")));
    }
    let mut pixels: Vec<u8> = bytes;
    pixels.truncate(needed as usize);
    let image = CanonicalImage::assemble(width as u32, height as u32, pixels);
    encode_png(&image)
}

/// Processes the file at `path`, whose content is `data`, in one go: makes
/// the image, with `render` to draw it where it is a vector image, has
/// `engine` run the model on its tensor, composites over the
/// chosen background and encodes the result as a data URL.
///
/// The first stage that fails gives its failure, and the later ones are not
/// run: `UnsupportedFormat` or `InvalidInput` of the image,
/// `ModelNotInitialized` without a session, `Inference` of the engine and
/// its output, `Encoding` of the result. For a raster file the stages are
/// those of `start_processing` and `finish_processing`, with whatever the
/// engine gave for the image's tensor between them.
pub fn process_one_file<
    R: FnOnce(resvg::usvg::Tree, u32, u32, u32) -> Option<Vec<u8>>,
    F: FnOnce(Vec<u32>) -> Result<Vec<u32>, String>,
>(
    session: &InferenceSession,
    path: &str,
    data: &[u8],
    options: &ProcessOptions,
    render: R,
    engine: F,
) -> (r: Result<String, AppError>)
    requires
        can_render(render),
        forall|t: Vec<u32>| call_requires(engine, (t,)),
    ensures
        !supported_path(path@) ==> (r matches Err(
            AppError::UnsupportedFormat(p),
        ) && p@ == path@),
        supported_path(path@) && format_key(path@) != Some("svg"@) ==> {
            &&& !raster_loads(data@, path@) ==> (r matches Err(e) && e is InvalidInput)
            &&& raster_loads(data@, path@) && !session.is_ready() ==> (r matches Err(
                AppError::ModelNotInitialized(None),
            ))
            &&& raster_loads(data@, path@) && session.is_ready() && !raster_prepares(
                data@,
                path@,
            ) ==> (r matches Err(e) && e is InvalidInput)
            &&& raster_prepares(data@, path@) && session.is_ready() ==> exists|
                image: Raster,
                t: Vec<u32>,
                outcome: Result<Vec<u32>, String>,
            |
                {
                    &&& raster_loaded(data@, path@, image)
                    &&& is_model_input(image, t@)
                    &&& call_ensures(engine, (t,), outcome)
                    &&& finished_as(image, outcome, *options, r)
                }
        },
        r is Ok ==> session.is_ready(),
        r matches Err(e) ==> (e is UnsupportedFormat || e is InvalidInput || e
            is ModelNotInitialized || e is Inference || e is Encoding),
{
    let image: CanonicalImage = match load_image(path, data, render) {
        Ok(image) => image,
        Err(e) => {
            return Err(e);
        },
    };
    let width: u32 = image.width();
    let inferred_mask = run_inference(session, &image, engine);
    let r = match inferred_mask {
        Ok(mask) => compose(&image, &mask, options),
        Err(e) => Err(e),
    };
    proof {
        if session.is_ready() && can_prepare(image@) {
            let (t, outcome) = choose|t: Vec<u32>, outcome: Result<Vec<u32>, String>|
                is_model_input(image@, t@) && call_ensures(engine, (t,), outcome) && inferred(
                    image@,
                    outcome,
                    inferred_mask,
                );
            if outcome is Ok && gives_mask(image@, outcome->Ok_0@) {
                assert(is_mask_for(image@, outcome->Ok_0@, inferred_mask->Ok_0@) && composed(
                    image@,
                    inferred_mask->Ok_0@,
                    *options,
                    r,
                ));
            }
            assert(finished_as(image@, outcome, *options, r));
            if supported_path(path@) && format_key(path@) != Some("svg"@) {
                assert(raster_loaded(data@, path@, image@) && is_model_input(image@, t@)
                    && call_ensures(engine, (t,), outcome) && finished_as(
                    image@,
                    outcome,
                    *options,
                    r,
                ));
            }
        }
    }
    r
}

/// What the caller of a batch is to do next.
#[derive(Debug, PartialEq, Eq)]
pub enum BatchRequest {
    /// Read the file at this path and hand what came of it to `file_read`.
    ReadFile(String),
    /// Run the model on this tensor and hand what came of it to `model_ran`.
    RunModel(Vec<u32>),
    /// Nothing: every item has been reported.
    Done,
}

/// Where an item of a batch stands. An item that was reported, as completed
/// or as failed, is never taken up again.
#[derive(Clone, Copy, Debug, PartialEq, Eq)]
pub enum ItemState {
    /// Not yet begun.
    Pending,
    /// The item being worked on.
    Processing,
    /// Ended and reported.
    Reported,
}

/// The order of the states.
pub open spec fn rank(state: ItemState) -> int {
    match state {
        ItemState::Pending => 0,
        ItemState::Processing => 1,
        ItemState::Reported => 2,
    }
}

/// One turn of a batch: the batch as it now stands, the outcome to notify
/// of, if an item just ended, and what to do next.
#[derive(Debug)]
pub struct BatchTurn {
    pub batch: Batch,
    pub report: Option<BatchProgress>,
    pub request: BatchRequest,
}

/// A batch in progress: the items in their order, the one being worked on,
/// and its image while the model runs.
#[derive(Debug)]
pub struct Batch {
    paths: Vec<String>,
    options: ProcessOptions,
    index: usize,
    pending: Option<CanonicalImage>,
}

impl Batch {
    #[verifier::type_invariant]
    pub closed spec fn inv(&self) -> bool {
        &&& self.index <= self.paths@.len()
        &&& self.pending is Some ==> self.index < self.paths@.len()
    }

    /// The number of items.
    pub closed spec fn total(&self) -> nat {
        self.paths@.len()
    }

    /// The index of the item being worked on; the total when all are done.
    pub closed spec fn position(&self) -> nat {
        self.index as nat
    }

    /// The path of item `i`.
    pub closed spec fn path_at(&self, i: int) -> Seq<char> {
        self.paths@[i]@
    }

    /// Whether the current item waits for the model's outcome.
    pub closed spec fn awaiting_model(&self) -> bool {
        self.pending is Some
    }

    /// The image of the current item, while it waits for the model.
    pub closed spec fn held_image(&self) -> Raster {
        self.pending->0@
    }

    /// The options of the batch.
    pub closed spec fn options(&self) -> ProcessOptions {
        self.options
    }

    /// Whether every item has been reported.
    pub open spec fn finished(&self) -> bool {
        self.position() == self.total()
    }

    /// Whether `request` is what a batch in this state asks for when it
    /// starts on an item: to read the current item's file, or nothing when
    /// all are done.
    pub open spec fn asks(&self, request: BatchRequest) -> bool {
        match request {
            BatchRequest::ReadFile(path) => !self.finished() && path@ == self.path_at(
                self.position() as int,
            ),
            BatchRequest::RunModel(_) => false,
            BatchRequest::Done => self.finished(),
        }
    }

    /// Whether `later` is this batch with its position moved to `position`.
    pub open spec fn moved_to(&self, later: &Batch, position: nat) -> bool {
        &&& later.total() == self.total()
        &&& later.options() == self.options()
        &&& later.position() == position
        &&& forall|i: int| 0 <= i < self.total() ==> later.path_at(i) == self.path_at(i)
    }

    /// The state of item `i`: reported once the batch has moved past it,
    /// processing while it is the one being worked on, pending until then.
    pub open spec fn state_of(&self, i: int) -> ItemState {
        if i < self.position() {
            ItemState::Reported
        } else if i == self.position() {
            ItemState::Processing
        } else {
            ItemState::Pending
        }
    }

    /// The state of item `i`.
    pub fn item_state(&self, i: usize) -> (state: ItemState)
        ensures
            state == self.state_of(i as int),
    {
        if i < self.index {
            ItemState::Reported
        } else if i == self.index {
            ItemState::Processing
        } else {
            ItemState::Pending
        }
    }

    /// How many items the batch has.
    pub fn len(&self) -> (n: usize)
        ensures
            n == self.total(),
    {
        self.paths.len()
    }

    /// The index of the item being worked on.
    pub fn current(&self) -> (i: usize)
        ensures
            i == self.position(),
            i <= self.total(),
    {
        proof {
            use_type_invariant(self);
        }
        self.index
    }

    /// Whether the current item waits for the model's outcome.
    pub fn is_awaiting_model(&self) -> (b: bool)
        ensures
            b == self.awaiting_model(),
            b ==> !self.finished(),
    {
        proof {
            use_type_invariant(self);
        }
        self.pending.is_some()
    }

    /// Whether every item has been reported.
    pub fn is_finished(&self) -> (b: bool)
        ensures
            b == self.finished(),
    {
        proof {
            use_type_invariant(self);
        }
        self.index == self.paths.len()
    }

    /// What to do to start on the current item.
    fn next_request(&self) -> (request: BatchRequest)
        ensures
            self.asks(request),
    {
        proof {
            use_type_invariant(self);
        }
        if self.index < self.paths.len() {
            BatchRequest::ReadFile(self.paths[self.index].clone())
        } else {
            BatchRequest::Done
        }
    }

    /// Ends the current item with a failure and moves on.
    fn fail_current(self, failure: &AppError) -> (turn: BatchTurn)
        requires
            !self.finished(),
        ensures
            self.moved_to(&turn.batch, self.position() + 1),
            !turn.batch.awaiting_model(),
            turn.batch.asks(turn.request),
            turn.report matches Some(p) && p.is_failed() && p.index == self.position() && p.total
                == self.total() && p.name@ == item_name(self.path_at(self.position() as int))
                && p.error->0@ == failure.text(),
    {
        proof {
            use_type_invariant(&self);
        }
        let name: String = item_name_of(self.paths[self.index].as_str());
        let report = BatchProgress::failed(self.index, self.paths.len(), name, failure);
        let batch = Batch {
            paths: self.paths,
            options: self.options,
            index: self.index + 1,
            pending: None,
        };
        let request = batch.next_request();
        BatchTurn { batch, report: Some(report), request }
    }

    /// Takes in what reading the current item's file gave; `render` draws
    /// the item where it is a vector image.
    ///
    /// Where the image is ready for the model, nothing is reported yet and
    /// the model is to be run. Any failure, a file that could not be read
    /// among them, ends the item: it is reported as failed, under its index
    /// and name, and the batch moves on to the next item.
    pub fn file_read<R: FnOnce(resvg::usvg::Tree, u32, u32, u32) -> Option<Vec<u8>>>(
        self,
        session: &InferenceSession,
        content: Result<Vec<u8>, String>,
        render: R,
    ) -> (turn: BatchTurn)
        requires
            !self.finished(),
            !self.awaiting_model(),
            can_render(render),
        ensures
            turn.report is None <==> turn.request is RunModel,
            turn.request matches BatchRequest::RunModel(tensor) ==> (self.moved_to(
                &turn.batch,
                self.position(),
            ) && turn.batch.awaiting_model() && session.is_ready() && content is Ok && is_rgba(
                turn.batch.held_image(),
            ) && holds_limit(turn.batch.held_image()) && is_model_input(
                turn.batch.held_image(),
                tensor@,
            )),
            turn.report matches Some(p) ==> {
                &&& p.is_failed()
                &&& p.index == self.position()
                &&& p.total == self.total()
                &&& p.name@ == item_name(self.path_at(self.position() as int))
                &&& self.moved_to(&turn.batch, self.position() + 1)
                &&& !turn.batch.awaiting_model()
                &&& turn.batch.asks(turn.request)
            },
            exists|r: Result<Prepared, AppError>|
                {
                    &&& match content {
                        Err(m) => r matches Err(AppError::InvalidInput(d)) && d@ == unreadable(
                            self.path_at(self.position() as int),
                            m@,
                        ),
                        Ok(data) => started(
                            session.is_ready(),
                            self.path_at(self.position() as int),
                            data@,
                            r,
                        ),
                    }
                    &&& #[trigger] begins(turn, r)
                },
    {
        proof {
            use_type_invariant(&self);
        }
        let started_as = start_processing(
            session,
            self.paths[self.index].as_str(),
            content,
            render,
        );
        let ghost r: Result<Prepared, AppError> = started_as;
        let turn = match started_as {
            Ok(prepared) => {
                let batch = Batch {
                    paths: self.paths,
                    options: self.options,
                    index: self.index,
                    pending: Some(prepared.image),
                };
                BatchTurn { batch, report: None, request: BatchRequest::RunModel(prepared.tensor) }
            },
            Err(e) => self.fail_current(&e),
        };
        proof {
            assert(begins(turn, r));
        }
        turn
    }

    /// Takes in what running the model on the current item gave, and ends
    /// the item: it is reported under its index and name, as completed with
    /// its result or as failed with the failure's message, never both, and
    /// the batch moves on to the next item.
    pub fn model_ran(self, outcome: Result<Vec<u32>, String>) -> (turn: BatchTurn)
        requires
            self.awaiting_model(),
        ensures
            self.moved_to(&turn.batch, self.position() + 1),
            !turn.batch.awaiting_model(),
            turn.batch.asks(turn.request),
            turn.report matches Some(p) && (p.is_completed() || p.is_failed()) && p.index
                == self.position() && p.total == self.total() && p.name@ == item_name(
                self.path_at(self.position() as int),
            ),
            exists|r: Result<String, AppError>|
                finished_as(self.held_image(), outcome, self.options(), r) && #[trigger] reports(
                    turn.report->0,
                    r,
                ),
            outcome matches Err(m) ==> turn.report->0.error->0@ == m@,
    {
        proof {
            use_type_invariant(&self);
        }
        let Batch { paths, options, index, pending } = self;
        let image: CanonicalImage = match pending {
            Some(image) => image,
            // `awaiting_model` says that an image is held
            None => vstd::pervasive::unreached(),
        };
        let outcome_result = finish_processing(&image, outcome, &options);
        let ghost r: Result<String, AppError> = outcome_result;
        let waiting = Batch { paths, options, index, pending: None };
        let turn = match outcome_result {
            Ok(url) => {
                let name: String = item_name_of(waiting.paths[waiting.index].as_str());
                let report = BatchProgress::completed(
                    waiting.index,
                    waiting.paths.len(),
                    name,
                    url,
                );
                let batch = Batch {
                    paths: waiting.paths,
                    options: waiting.options,
                    index: waiting.index + 1,
                    pending: None,
                };
                let request = batch.next_request();
                BatchTurn { batch, report: Some(report), request }
            },
            Err(e) => waiting.fail_current(&e),
        };
        proof {
            assert(reports(turn.report->0, r));
        }
        turn
    }
}

/// Whether an outcome is reported as the result `r` has it: completed with
/// the data URL, or failed with the failure's text.
pub open spec fn reports(p: BatchProgress, r: Result<String, AppError>) -> bool {
    match r {
        Ok(url) => p.is_completed() && p.result_data_url->0@ == url@,
        Err(e) => p.is_failed() && p.error->0@ == e.text(),
    }
}

/// Whether a turn follows the first half of processing as `r` has it: the
/// model is to be run on the prepared image's tensor, or the item is
/// reported as failed with the failure's text.
pub open spec fn begins(turn: BatchTurn, r: Result<Prepared, AppError>) -> bool {
    match r {
        Ok(p) => turn.request matches BatchRequest::RunModel(tensor) && tensor@ == p.tensor@
            && turn.batch.held_image() == p.image@,
        Err(e) => turn.report matches Some(p) && p.error->0@ == e.text(),
    }
}

/// From one turn to the next no item goes back. A turn leaves the batch at
/// its item or moves it to the next one; either way an item that was
/// reported stays reported, the items before the current one are exactly
/// the reported ones, and the others can only advance.
pub proof fn law_items_never_go_back(before: &Batch, after: &Batch, i: int)
    requires
        before.moved_to(after, before.position()) || before.moved_to(
            after,
            before.position() + 1,
        ),
    ensures
        rank(before.state_of(i)) <= rank(after.state_of(i)),
        before.state_of(i) is Reported ==> after.state_of(i) is Reported,
        after.state_of(i) is Reported <==> i < after.position(),
{
}

/// Starts a batch over the files at `paths`, in their order.
///
/// Without a session nothing is started: that failure is the batch's own,
/// reported once as `ModelNotInitialized`, and no item is attempted. With
/// one, the batch begins at its first item; an empty batch is done at once.
pub fn process_batch_images(
    session: &InferenceSession,
    paths: Vec<String>,
    options: ProcessOptions,
) -> (r: Result<(Batch, BatchRequest), AppError>)
    ensures
        !session.is_ready() ==> r matches Err(AppError::ModelNotInitialized(None)),
        session.is_ready() ==> (r matches Ok(start) && {
            &&& start.0.total() == paths@.len()
            &&& start.0.position() == 0
            &&& start.0.options() == options
            &&& !start.0.awaiting_model()
            &&& forall|i: int| 0 <= i < paths@.len() ==> start.0.path_at(i) == paths@[i]@
            &&& start.0.asks(start.1)
        }),
{
    if !session.ready() {
        return Err(AppError::ModelNotInitialized(None));
    }
    let batch = Batch { paths, options, index: 0, pending: None };
    let request = batch.next_request();
    Ok((batch, request))
}

} // verus!
