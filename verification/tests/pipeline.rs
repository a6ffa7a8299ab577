//! The session, the tensors, the encoded result and the batch.

use bg_remover::commands::{
    check_model, clipboard_png, finish_processing, item_name_of, output_file_name,
    process_batch_images, process_one_file, process_single_image, start_processing,
    start_processing_bytes, BatchProgress, BatchRequest, ItemState, ProcessOptions,
};
use bg_remover::compositor::BackgroundColor;
use bg_remover::encoder::{
    bytes_of_data_url, data_url_of, encode_base64_png, encode_png, image_of_data_url, payload_of,
    png_of_data_url,
};
use bg_remover::error::AppError;
use bg_remover::ml_engine::{
    finish_inference, model_mask_of, run_inference, tensor_of, InferenceSession, InitStep, PLANE,
};
use bg_remover::normalizer::{load_image_from_bytes, rasterize_svg};
use bg_remover::raster::CanonicalImage;

/// Draws a parsed document as the application does.
fn draw_svg(tree: resvg::usvg::Tree, scale_bits: u32, width: u32, height: u32) -> Option<Vec<u8>> {
    let mut pixmap = resvg::tiny_skia::Pixmap::new(width, height)?;
    let scale = f32::from_bits(scale_bits);
    let transform = resvg::tiny_skia::Transform::from_scale(scale, scale);
    resvg::render(&tree, transform, &mut pixmap.as_mut());
    Some(pixmap.take())
}

fn ready_session() -> InferenceSession {
    let mut session = InferenceSession::new();
    assert_eq!(session.complete_load(Ok(())), Ok(()));
    session
}

fn sample_image(w: u32, h: u32) -> CanonicalImage {
    let mut pixels = Vec::new();
    for i in 0..w * h {
        pixels.extend_from_slice(&[(i * 31) as u8, (i * 17 + 5) as u8, (255 - i) as u8, 255]);
    }
    CanonicalImage::from_raw(w, h, pixels).unwrap()
}

fn uniform_output(value: f32) -> Vec<u32> {
    vec![value.to_bits(); PLANE]
}

const TRANSPARENT: ProcessOptions = ProcessOptions { background: BackgroundColor::Transparent };

#[test]
fn init_twice_succeeds_and_loads_once() {
    let mut session = InferenceSession::new();
    assert!(!session.ready());
    assert_eq!(session.init_model("res/model.onnx", true), Ok(InitStep::Load));
    assert_eq!(session.complete_load(Ok(())), Ok(()));
    assert!(session.ready());
    let before = session;
    // the second request is a success that asks for nothing
    assert_eq!(session.init_model("res/model.onnx", true), Ok(InitStep::AlreadyReady));
    assert_eq!(session, before);
    // even where the file has gone since
    assert_eq!(session.init_model("res/model.onnx", false), Ok(InitStep::AlreadyReady));
    assert!(session.ready());
}

#[test]
fn missing_model_is_reported_with_its_path() {
    let session = InferenceSession::new();
    let err = session.init_model("/opt/app/resources/model.onnx", false).unwrap_err();
    assert_eq!(err, AppError::ModelNotInitialized(Some("/opt/app/resources/model.onnx".to_string())));
    assert_eq!(
        err.message(),
        "model.onnx introuvable à : /opt/app/resources/model.onnx. Téléchargez RMBG-1.4 depuis HuggingFace."
    );
    assert!(!session.ready());
    assert_eq!(check_model("m.onnx", true), Ok("m.onnx".to_string()));
    assert_eq!(check_model("m.onnx", false), Err(AppError::ModelNotInitialized(Some("m.onnx".to_string()))));
}

#[test]
fn failed_load_is_an_inference_error_and_leaves_no_session() {
    let mut session = InferenceSession::new();
    let err = session.complete_load(Err("bad graph".to_string())).unwrap_err();
    assert_eq!(err, AppError::Inference("bad graph".to_string()));
    assert_eq!(err.message(), "Erreur d'inférence : bad graph");
    assert!(!session.ready());
    assert_eq!(session.init_model("m.onnx", true), Ok(InitStep::Load));
}

#[test]
fn inference_needs_a_session() {
    let session = InferenceSession::new();
    let img = sample_image(2, 2);
    let err = session.prepare_inference(&img).unwrap_err();
    assert_eq!(err, AppError::ModelNotInitialized(None));
    assert_eq!(err.message(), "Modèle non initialisé. Placez model.onnx dans le dossier resources/");
    let png = encode_png(&img).unwrap();
    assert_eq!(
        start_processing(&session, "a.png", Ok(png.clone()), draw_svg).unwrap_err(),
        AppError::ModelNotInitialized(None)
    );
    assert_eq!(
        process_single_image(&session, "a.png", None, draw_svg).unwrap_err(),
        AppError::ModelNotInitialized(None)
    );
    assert!(process_batch_images(&session, vec!["a.png".to_string()], TRANSPARENT).is_err());
}

#[test]
fn tensor_is_planar_rgb_of_the_resized_image() {
    // an image that already has the model's size is not resampled
    let mut pixels = vec![0u8; 4 * PLANE];
    for (i, px) in pixels.chunks_mut(4).enumerate() {
        px.copy_from_slice(&[(i % 251) as u8, (i % 241) as u8, (i % 239) as u8, 17]);
    }
    let img = CanonicalImage::from_raw(1024, 1024, pixels.clone()).unwrap();
    let tensor = ready_session().prepare_inference(&img).unwrap();
    assert_eq!(tensor.len(), 3 * PLANE);
    for i in [0usize, 1, 1023, 1024, 500_000, PLANE - 1] {
        for c in 0..3 {
            let want = (pixels[4 * i + c] as f32 / 255.0 - 0.5).to_bits();
            assert_eq!(tensor[c * PLANE + i], want, "pixel {i} channel {c}");
        }
    }
    assert_eq!(tensor, tensor_of(&pixels));
}

#[test]
fn tensor_of_a_small_image_has_the_model_shape() {
    let tensor = ready_session().prepare_inference(&sample_image(3, 2)).unwrap();
    assert_eq!(tensor.len(), 3 * 1024 * 1024);
    for &bits in tensor.iter().step_by(4099) {
        let v = f32::from_bits(bits);
        assert!((-0.5..=0.5).contains(&v), "{v}");
    }
}

#[test]
fn mask_has_the_size_of_its_image() {
    let img = sample_image(7, 3);
    let mask = finish_inference(&img, Ok(uniform_output(1.0))).unwrap();
    assert_eq!((mask.width(), mask.height()), (7, 3));
    assert_eq!(mask.values(), &vec![255; 21]);
    let mask = finish_inference(&img, Ok(uniform_output(0.0))).unwrap();
    assert_eq!(mask.values(), &vec![0; 21]);
}

#[test]
fn mask_of_an_image_at_model_size_is_the_scaled_output() {
    let mut output = Vec::with_capacity(PLANE);
    for i in 0..PLANE {
        output.push((i as f32 / PLANE as f32 * 1.5 - 0.25).to_bits());
    }
    let img = CanonicalImage::from_raw(1024, 1024, vec![0; 4 * PLANE]).unwrap();
    let mask = finish_inference(&img, Ok(output.clone())).unwrap();
    for i in (0..PLANE).step_by(997) {
        let want = (f32::from_bits(output[i]).clamp(0.0, 1.0) * 255.0) as u8;
        assert_eq!(mask.values()[i], want, "element {i}");
    }
    assert_eq!(model_mask_of(&vec![0.5f32.to_bits(), f32::NAN.to_bits(), 7.0f32.to_bits()]), vec![127, 0, 255]);
}

#[test]
fn engine_failures_and_wrong_shapes_are_inference_errors() {
    let img = sample_image(2, 2);
    assert_eq!(
        finish_inference(&img, Err("run failed".to_string())).unwrap_err(),
        AppError::Inference("run failed".to_string())
    );
    assert!(matches!(finish_inference(&img, Ok(vec![0; 10])), Err(AppError::Inference(_))));
    assert!(matches!(finish_inference(&img, Ok(vec![0; PLANE + 1])), Err(AppError::Inference(_))));
    assert!(matches!(
        finish_processing(&img, Err("boom".to_string()), &TRANSPARENT),
        Err(AppError::Inference(m)) if m == "boom"
    ));
}

#[test]
fn data_url_wraps_base64_of_the_png() {
    assert_eq!(data_url_of(&b"hello".to_vec()).unwrap(), "data:image/png;base64,aGVsbG8=");
    assert_eq!(data_url_of(&vec![]).unwrap(), "data:image/png;base64,");
    let img = sample_image(3, 2);
    let png = encode_png(&img).unwrap();
    assert_eq!(&png[..8], b"\x89PNG\r\n\x1a\n");
    let url = encode_base64_png(&img).unwrap();
    assert!(url.starts_with("data:image/png;base64,iVBORw0KGgo"), "{url}");
    assert_eq!(bytes_of_data_url(&url).unwrap(), png);
}

#[test]
fn payload_is_what_follows_the_prefix() {
    assert_eq!(payload_of("data:image/png;base64,QUJD"), "QUJD");
    assert_eq!(payload_of("QUJD"), "QUJD");
    assert_eq!(payload_of("data:image/png;base64,"), "");
    assert_eq!(payload_of("data:image/jpeg;base64,QUJD"), "data:image/jpeg;base64,QUJD");
    assert_eq!(bytes_of_data_url("data:image/png;base64,QUJD").unwrap(), b"ABC");
    assert_eq!(bytes_of_data_url("QUJD").unwrap(), b"ABC");
}

#[test]
fn decode_of_encode_gives_the_pixels_back() {
    for (w, h) in [(1u32, 1u32), (3, 2), (16, 9), (64, 64)] {
        let img = sample_image(w, h);
        let url = encode_base64_png(&img).unwrap();
        let back = image_of_data_url(&url).unwrap();
        assert_eq!((back.width(), back.height()), (w, h));
        assert_eq!(back.pixels(), img.pixels());
        let again = load_png(&png_of_data_url(&url).unwrap());
        assert_eq!(again.pixels(), img.pixels());
    }
}

fn load_png(png: &[u8]) -> CanonicalImage {
    bg_remover::normalizer::load_image("x.png", png, draw_svg).unwrap()
}

#[test]
fn bad_data_urls_are_encoding_errors() {
    assert!(matches!(bytes_of_data_url("data:image/png;base64,%%%"), Err(AppError::Encoding(_))));
    assert!(matches!(image_of_data_url("not base64!"), Err(AppError::Encoding(_))));
    // base64 of bytes that are no image
    assert!(matches!(image_of_data_url("data:image/png;base64,aGVsbG8="), Err(AppError::Encoding(_))));
    assert!(matches!(png_of_data_url("data:image/png;base64,aGVsbG8="), Err(AppError::Encoding(_))));
    let err = bytes_of_data_url("*").unwrap_err();
    assert!(err.message().starts_with("Erreur d'encodage : "));
}

#[test]
fn full_mask_gives_the_image_back_over_transparent() {
    let img = sample_image(4, 4);
    let url = finish_processing(&img, Ok(uniform_output(1.0)), &TRANSPARENT).unwrap();
    let out = image_of_data_url(&url).unwrap();
    assert_eq!(out.pixels(), img.pixels());
    let url = finish_processing(&img, Ok(uniform_output(0.0)), &TRANSPARENT).unwrap();
    let out = image_of_data_url(&url).unwrap();
    for (got, src) in out.pixels().chunks(4).zip(img.pixels().chunks(4)) {
        assert_eq!(got, [src[0], src[1], src[2], 0]);
    }
    let white = ProcessOptions { background: BackgroundColor::White };
    let url = finish_processing(&img, Ok(uniform_output(0.0)), &white).unwrap();
    assert!(image_of_data_url(&url).unwrap().pixels().iter().all(|&v| v == 255));
}

#[test]
fn single_image_reports_its_failure_directly() {
    let session = ready_session();
    assert_eq!(
        process_single_image(&session, "gone.png", None, draw_svg).unwrap_err(),
        AppError::FileNotFound("gone.png".to_string())
    );
    assert_eq!(
        AppError::FileNotFound("gone.png".to_string()).message(),
        "Fichier introuvable : gone.png"
    );
    let err = process_single_image(&session, "a.png", Some(Err("denied".to_string())), draw_svg).unwrap_err();
    assert_eq!(err, AppError::InvalidInput("Impossible d'ouvrir a.png : denied".to_string()));
    assert_eq!(err.detail(), "Impossible d'ouvrir a.png : denied");
    assert_eq!(err.message(), "Erreur de traitement d'image : Impossible d'ouvrir a.png : denied");
    assert_eq!(AppError::Io("denied".to_string()).message(), "Erreur I/O : denied");
    assert!(matches!(
        process_single_image(&session, "a.gif", Some(Ok(vec![1, 2, 3])), draw_svg),
        Err(AppError::InvalidInput(_))
    ));
    let err = process_single_image(&session, "a.doc", Some(Ok(vec![])), draw_svg).unwrap_err();
    assert_eq!(err, AppError::UnsupportedFormat("a.doc".to_string()));
    assert_eq!(err.message(), "Format de fichier non supporté : a.doc");
    let png = encode_png(&sample_image(2, 3)).unwrap();
    let prepared = process_single_image(&session, "a.png", Some(Ok(png)), draw_svg).unwrap();
    assert_eq!((prepared.image.width(), prepared.image.height()), (2, 3));
    assert_eq!(prepared.tensor.len(), 3 * PLANE);
    let url = finish_processing(&prepared.image, Ok(uniform_output(1.0)), &TRANSPARENT).unwrap();
    assert_eq!(image_of_data_url(&url).unwrap().pixels(), sample_image(2, 3).pixels());
}

#[test]
fn clipboard_images_are_kept_as_png() {
    let session = ready_session();
    let img = sample_image(3, 3);
    let png = clipboard_png(3, 3, img.pixels().clone()).unwrap();
    assert_eq!(png, encode_png(&img).unwrap());
    let prepared = start_processing_bytes(&session, Some(&png)).unwrap();
    assert_eq!(prepared.image.pixels(), img.pixels());
    // of a longer buffer the first bytes are the image
    let mut longer = img.pixels().clone();
    longer.extend_from_slice(&[1, 2, 3, 4, 5]);
    assert_eq!(clipboard_png(3, 3, longer).unwrap(), png);
    let err = clipboard_png(3, 3, vec![0; 35]).unwrap_err();
    assert_eq!(err, AppError::Clipboard("Buffer clipboard invalide".to_string()));
    assert_eq!(err.message(), "Erreur de presse-papier : Buffer clipboard invalide");
    assert!(clipboard_png(0, 0, vec![]).is_err());
    assert!(clipboard_png(usize::MAX, 1, vec![]).is_err());
    assert_eq!(
        start_processing_bytes(&session, None).unwrap_err(),
        AppError::Clipboard("Aucune image clipboard mémorisée".to_string())
    );
    assert!(matches!(
        start_processing_bytes(&session, Some(&vec![1, 2, 3])),
        Err(AppError::InvalidInput(_))
    ));
}

#[test]
fn names_of_items_and_of_saved_files() {
    assert_eq!(item_name_of("/home/me/pictures/cat.png"), "cat.png");
    assert_eq!(item_name_of("cat.png"), "cat.png");
    assert_eq!(item_name_of(""), "inconnu");
    assert_eq!(item_name_of("/"), "inconnu");
    assert_eq!(item_name_of("dir/.."), "inconnu");
    assert_eq!(output_file_name("cat.png"), "cat_nobg.png");
    assert_eq!(output_file_name("archive.tar.gz"), "archive.tar_nobg.png");
    assert_eq!(output_file_name("plain"), "plain_nobg.png");
    assert_eq!(output_file_name(""), "output_nobg.png");
    assert_eq!(output_file_name("dir/photo.JPG"), "photo_nobg.png");
}

fn expect_read(request: &BatchRequest, path: &str) {
    assert_eq!(request, &BatchRequest::ReadFile(path.to_string()));
}

#[test]
fn batch_of_three_with_an_unreadable_second_item() {
    let session = ready_session();
    let paths = vec!["in/a.png".to_string(), "in/missing.png".to_string(), "in/c.png".to_string()];
    let options = ProcessOptions { background: BackgroundColor::Black };
    let png = encode_png(&sample_image(2, 2)).unwrap();
    let mut reports: Vec<BatchProgress> = Vec::new();

    let (batch, request) = process_batch_images(&session, paths, options).unwrap();
    assert_eq!(batch.len(), 3);
    expect_read(&request, "in/a.png");

    let turn = batch.file_read(&session, Ok(png.clone()), draw_svg);
    assert!(turn.report.is_none());
    assert!(turn.batch.is_awaiting_model());
    assert!(matches!(&turn.request, BatchRequest::RunModel(t) if t.len() == 3 * PLANE));
    let turn = turn.batch.model_ran(Ok(uniform_output(1.0)));
    reports.extend(turn.report);
    expect_read(&turn.request, "in/missing.png");

    let turn = turn.batch.file_read(&session, Err("No such file or directory".to_string()), draw_svg);
    reports.extend(turn.report);
    assert_eq!(turn.batch.current(), 2);
    expect_read(&turn.request, "in/c.png");

    let turn = turn.batch.file_read(&session, Ok(png), draw_svg);
    assert!(turn.report.is_none());
    let turn = turn.batch.model_ran(Ok(uniform_output(1.0)));
    reports.extend(turn.report);
    assert_eq!(turn.request, BatchRequest::Done);
    assert!(turn.batch.is_finished());

    assert_eq!(reports.len(), 3);
    for (i, report) in reports.iter().enumerate() {
        assert_eq!(report.index, i);
        assert_eq!(report.total, 3);
    }
    assert_eq!(reports[0].name, "a.png");
    assert_eq!(reports[1].name, "missing.png");
    assert_eq!(reports[2].name, "c.png");
    assert!(reports[0].result_data_url.is_some() && reports[0].error.is_none());
    assert!(reports[1].result_data_url.is_none());
    assert_eq!(
        reports[1].error.as_deref(),
        Some("Impossible d'ouvrir in/missing.png : No such file or directory")
    );
    assert!(reports[2].result_data_url.is_some() && reports[2].error.is_none());
    // the fully foreground mask over black keeps the colours and makes them opaque
    let out = image_of_data_url(reports[0].result_data_url.as_ref().unwrap()).unwrap();
    assert_eq!(out.pixels(), sample_image(2, 2).pixels());
}

#[test]
fn batch_goes_on_after_every_kind_of_failure() {
    let session = ready_session();
    let paths: Vec<String> =
        ["a.txt", "b.png", "c.png", "d.png"].iter().map(|p| p.to_string()).collect();
    let png = encode_png(&sample_image(2, 2)).unwrap();
    let (batch, request) = process_batch_images(&session, paths, TRANSPARENT).unwrap();
    expect_read(&request, "a.txt");
    // unsupported format
    let turn = batch.file_read(&session, Ok(png.clone()), draw_svg);
    let report = turn.report.unwrap();
    assert_eq!((report.index, report.total, report.name.as_str()), (0, 4, "a.txt"));
    assert_eq!(report.error.as_deref(), Some("Format de fichier non supporté : a.txt"));
    expect_read(&turn.request, "b.png");
    // undecodable data
    let turn = turn.batch.file_read(&session, Ok(vec![0; 10]), draw_svg);
    let report = turn.report.unwrap();
    assert_eq!(report.index, 1);
    assert!(report.error.unwrap().starts_with("Impossible d'ouvrir b.png : "));
    assert!(report.result_data_url.is_none());
    // the engine fails
    let turn = turn.batch.file_read(&session, Ok(png.clone()), draw_svg);
    let turn = turn.batch.model_ran(Err("out of memory".to_string()));
    let report = turn.report.unwrap();
    assert_eq!(report.index, 2);
    assert_eq!(report.error.as_deref(), Some("out of memory"));
    expect_read(&turn.request, "d.png");
    // the last item still completes
    let turn = turn.batch.file_read(&session, Ok(png), draw_svg);
    let turn = turn.batch.model_ran(Ok(uniform_output(0.25)));
    let report = turn.report.unwrap();
    assert_eq!((report.index, report.total), (3, 4));
    assert!(report.result_data_url.is_some() && report.error.is_none());
    assert_eq!(turn.request, BatchRequest::Done);
}

#[test]
fn empty_batch_is_done_at_once() {
    let (batch, request) = process_batch_images(&ready_session(), vec![], TRANSPARENT).unwrap();
    assert_eq!(request, BatchRequest::Done);
    assert!(batch.is_finished());
    assert_eq!(batch.len(), 0);
}

#[test]
fn inference_runs_the_engine_on_the_tensor() {
    let img = sample_image(5, 4);
    let mut seen = 0usize;
    let mask = run_inference(&ready_session(), &img, |tensor| {
        seen = tensor.len();
        Ok(uniform_output(1.0))
    })
    .unwrap();
    assert_eq!(seen, 3 * PLANE);
    assert_eq!((mask.width(), mask.height()), (5, 4));
    assert_eq!(mask.values(), &vec![255; 20]);
    let err = run_inference(&ready_session(), &img, |_| Err("no device".to_string())).unwrap_err();
    assert_eq!(err, AppError::Inference("no device".to_string()));
}

#[test]
fn inference_without_a_session_does_not_call_the_engine() {
    let mut called = false;
    let r = run_inference(&InferenceSession::new(), &sample_image(2, 2), |_| {
        called = true;
        Ok(uniform_output(1.0))
    });
    assert_eq!(r.unwrap_err(), AppError::ModelNotInitialized(None));
    assert!(!called);
}

#[test]
fn one_file_in_one_go() {
    let session = ready_session();
    let img = sample_image(3, 3);
    let png = encode_png(&img).unwrap();
    let white = ProcessOptions { background: BackgroundColor::White };
    let url = process_one_file(&session, "x.PNG", &png, &white, draw_svg, |_| Ok(uniform_output(0.0))).unwrap();
    assert!(image_of_data_url(&url).unwrap().pixels().iter().all(|&v| v == 255));
    let url = process_one_file(&session, "x.png", &png, &TRANSPARENT, draw_svg, |_| Ok(uniform_output(2.0))).unwrap();
    assert_eq!(image_of_data_url(&url).unwrap().pixels(), img.pixels());
    assert_eq!(
        process_one_file(&session, "x.pdf", &png, &white, draw_svg, |_| Ok(vec![])).unwrap_err(),
        AppError::UnsupportedFormat("x.pdf".to_string())
    );
    assert!(matches!(
        process_one_file(&session, "x.png", &png, &white, draw_svg, |_| Ok(vec![])),
        Err(AppError::Inference(_))
    ));
    assert!(matches!(
        process_one_file(&session, "x.png", &png, &white, draw_svg, |_| Err("x".to_string())),
        Err(AppError::Inference(_))
    ));
    assert!(matches!(
        process_one_file(&InferenceSession::new(), "x.png", &png, &white, draw_svg, |_| Ok(vec![])),
        Err(AppError::ModelNotInitialized(None))
    ));
}

#[test]
fn items_are_pending_then_processing_then_reported() {
    let session = ready_session();
    let paths = vec!["a.png".to_string(), "b.png".to_string()];
    let png = encode_png(&sample_image(1, 1)).unwrap();
    let (batch, _) = process_batch_images(&session, paths, TRANSPARENT).unwrap();
    assert_eq!(batch.item_state(0), ItemState::Processing);
    assert_eq!(batch.item_state(1), ItemState::Pending);
    let turn = batch.file_read(&session, Ok(png), draw_svg);
    assert_eq!(turn.batch.item_state(0), ItemState::Processing);
    let turn = turn.batch.model_ran(Ok(uniform_output(1.0)));
    assert_eq!(turn.batch.item_state(0), ItemState::Reported);
    assert_eq!(turn.batch.item_state(1), ItemState::Processing);
    let turn = turn.batch.file_read(&session, Err("gone".to_string()), draw_svg);
    assert_eq!(turn.batch.item_state(0), ItemState::Reported);
    assert_eq!(turn.batch.item_state(1), ItemState::Reported);
    assert!(turn.batch.is_finished());
}

#[test]
fn failures_say_their_text_without_the_kind_where_it_tells() {
    assert_eq!(AppError::Inference("run failed".to_string()).detail(), "run failed");
    assert_eq!(AppError::Clipboard("Buffer clipboard invalide".to_string()).detail(), "Buffer clipboard invalide");
    assert_eq!(AppError::Encoding("x".to_string()).detail(), "x");
    assert_eq!(AppError::Io("denied".to_string()).detail(), "denied");
    assert_eq!(AppError::FileNotFound("a.png".to_string()).detail(), "Fichier introuvable : a.png");
    assert_eq!(AppError::UnsupportedFormat("a.doc".to_string()).detail(), "Format de fichier non supporté : a.doc");
    assert_eq!(
        AppError::ModelNotInitialized(None).detail(),
        "Modèle non initialisé — appelez init_model() d'abord"
    );
    assert_eq!(
        AppError::ModelNotInitialized(Some("m.onnx".to_string())).detail(),
        "model.onnx introuvable à : m.onnx. Téléchargez RMBG-1.4 depuis HuggingFace."
    );
}

#[test]
fn batch_item_gets_what_the_file_alone_gets() {
    let session = ready_session();
    let png = encode_png(&sample_image(3, 2)).unwrap();
    let options = ProcessOptions { background: BackgroundColor::Color { r: 10, g: 20, b: 30 } };
    let alone =
        process_one_file(&session, "x.png", &png, &options, draw_svg, |_| Ok(uniform_output(0.5))).unwrap();
    let (batch, _) = process_batch_images(&session, vec!["x.png".to_string()], options).unwrap();
    let turn = batch.file_read(&session, Ok(png), draw_svg);
    let turn = turn.batch.model_ran(Ok(uniform_output(0.5)));
    assert_eq!(turn.report.unwrap().result_data_url, Some(alone));
}

#[test]
fn saved_stream_is_the_png_of_the_carried_image() {
    let img = sample_image(4, 3);
    let url = encode_base64_png(&img).unwrap();
    let png = png_of_data_url(&url).unwrap();
    assert_eq!(png, encode_png(&img).unwrap());
    assert!(!png.is_empty());
}

#[test]
fn prepared_images_hold_the_limit() {
    let session = ready_session();
    let wide = CanonicalImage::from_raw(5000, 2, vec![7; 5000 * 2 * 4]).unwrap();
    let png = encode_png(&wide).unwrap();
    let prepared = start_processing(&session, "wide.png", Ok(png.clone()), draw_svg).unwrap();
    assert_eq!((prepared.image.width(), prepared.image.height()), (4096, 1));
    let prepared = start_processing_bytes(&session, Some(&png)).unwrap();
    assert_eq!((prepared.image.width(), prepared.image.height()), (4096, 1));
}

#[test]
fn failures_of_loading_carry_their_text() {
    for err in [
        load_image_from_bytes(b"nothing").unwrap_err(),
        rasterize_svg(b"<svg", draw_svg).unwrap_err(),
        rasterize_svg(br##"<svg xmlns="http://www.w3.org/2000/svg" width="0" height="1"></svg>"##, draw_svg).unwrap_err(),
    ] {
        match err {
            AppError::InvalidInput(text) => assert!(
                text.starts_with("Décodage image : ") || text.starts_with("SVG parse error : "),
                "{text}"
            ),
            other => panic!("{other:?}"),
        }
    }
    let thin = CanonicalImage::from_raw(10_000, 1, vec![0; 40_000]).unwrap();
    let png = encode_png(&thin).unwrap();
    assert_eq!(
        load_image_from_bytes(&png).unwrap_err(),
        AppError::InvalidInput("Image invalide : dimensions 0×0 après réduction".to_string())
    );
}
