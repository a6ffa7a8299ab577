//! The failures that the pipeline reports, each with a message fit to show.

use vstd::prelude::*;
use vstd::string::*;

verus! {

/// A failure of one pipeline stage.
#[derive(Debug, PartialEq, Eq)]
pub enum AppError {
    /// No session: the model file is missing at the path held here, or, with
    /// no path, initialisation was never asked for.
    ModelNotInitialized(Option<String>),
    /// The inference engine failed while loading, building a tensor, running
    /// or handing out its result.
    Inference(String),
    /// The input cannot be used: undecodable data, an empty image, a vector
    /// canvas without area.
    InvalidInput(String),
    /// The file's extension is not one of the supported formats.
    UnsupportedFormat(String),
    /// The clipboard could not be read or written.
    Clipboard(String),
    /// No file at the path.
    FileNotFound(String),
    /// The result could not be encoded, or encoded data could not be read back.
    Encoding(String),
    /// Reading or writing a file failed.
    Io(String),
}

/// `prefix` followed by `detail`.
pub fn prefixed(prefix: &str, detail: &str) -> (r: String)
    ensures
        r@ == prefix@ + detail@,
{
    let mut s: String = String::from_str(prefix);
    s.append(detail);
    s
}

impl AppError {
    /// The text of `message`.
    pub open spec fn describe(self) -> Seq<char> {
        match self {
            AppError::ModelNotInitialized(None) =>
                "Modèle non initialisé. Placez model.onnx dans le dossier resources/"@,
            AppError::ModelNotInitialized(Some(path)) => "model.onnx introuvable à : "@ + path@
                + ". Téléchargez RMBG-1.4 depuis HuggingFace."@,
            AppError::Inference(detail) => "Erreur d'inférence : "@ + detail@,
            AppError::InvalidInput(detail) => "Erreur de traitement d'image : "@ + detail@,
            AppError::UnsupportedFormat(detail) => "Format de fichier non supporté : "@ + detail@,
            AppError::Clipboard(detail) => "Erreur de presse-papier : "@ + detail@,
            AppError::FileNotFound(detail) => "Fichier introuvable : "@ + detail@,
            AppError::Encoding(detail) => "Erreur d'encodage : "@ + detail@,
            AppError::Io(detail) => "Erreur I/O : "@ + detail@,
        }
    }

    /// The text of `detail`.
    pub open spec fn text(self) -> Seq<char> {
        match self {
            AppError::ModelNotInitialized(None) =>
                "Modèle non initialisé — appelez init_model() d'abord"@,
            AppError::ModelNotInitialized(Some(path)) => "model.onnx introuvable à : "@ + path@
                + ". Téléchargez RMBG-1.4 depuis HuggingFace."@,
            AppError::Inference(detail) => detail@,
            AppError::InvalidInput(detail) => detail@,
            AppError::UnsupportedFormat(detail) => "Format de fichier non supporté : "@ + detail@,
            AppError::Clipboard(detail) => detail@,
            AppError::FileNotFound(detail) => "Fichier introuvable : "@ + detail@,
            AppError::Encoding(detail) => detail@,
            AppError::Io(detail) => detail@,
        }
    }

    /// What the failure says by itself, without the name of its kind before
    /// it where the text already tells: the text that a caller is handed.
    pub fn detail(&self) -> (r: String)
        ensures
            r@ == self.text(),
    {
        match self {
            AppError::ModelNotInitialized(None) => String::from_str(
                "Modèle non initialisé — appelez init_model() d'abord",
            ),
            AppError::ModelNotInitialized(Some(_)) => self.message(),
            AppError::UnsupportedFormat(_) => self.message(),
            AppError::FileNotFound(_) => self.message(),
            AppError::Inference(detail) => detail.clone(),
            AppError::InvalidInput(detail) => detail.clone(),
            AppError::Clipboard(detail) => detail.clone(),
            AppError::Encoding(detail) => detail.clone(),
            AppError::Io(detail) => detail.clone(),
        }
    }

    /// The message to show for this failure.
    pub fn message(&self) -> (r: String)
        ensures
            r@ == self.describe(),
    {
        match self {
            AppError::ModelNotInitialized(None) => String::from_str(
                "Modèle non initialisé. Placez model.onnx dans le dossier resources/",
            ),
            AppError::ModelNotInitialized(Some(path)) => {
                let mut s: String = prefixed("model.onnx introuvable à : ", path.as_str());
                s.append(". Téléchargez RMBG-1.4 depuis HuggingFace.");
                s
            },
            AppError::Inference(detail) => prefixed("Erreur d'inférence : ", detail.as_str()),
            AppError::InvalidInput(detail) => prefixed(
                "Erreur de traitement d'image : ",
                detail.as_str(),
            ),
            AppError::UnsupportedFormat(detail) => prefixed(
                "Format de fichier non supporté : ",
                detail.as_str(),
            ),
            AppError::Clipboard(detail) => prefixed("Erreur de presse-papier : ", detail.as_str()),
            AppError::FileNotFound(detail) => prefixed("Fichier introuvable : ", detail.as_str()),
            AppError::Encoding(detail) => prefixed("Erreur d'encodage : ", detail.as_str()),
            AppError::Io(detail) => prefixed("Erreur I/O : ", detail.as_str()),
        }
    }
}

} // verus!
