//! Decisions taken from the daemon's environment variables: which model file
//! to load, which language to pin, whether to stream live, and whether to
//! play sound cues. The caller reads the variables; an unset (or non-Unicode)
//! variable is `None`.

use vstd::prelude::*;

use crate::text::{ascii_lower, chars_of, lower_ascii, same_chars};

verus! {

/// Whether two string slices hold the same text.
pub fn same_text(a: &str, b: &str) -> (r: bool)
    ensures
        r == (a@ == b@),
{
    let x = chars_of(a);
    let y = chars_of(b);
    same_chars(&x, &y)
}

/// `MYNAH_STREAM=1` turns live streaming on; any other value, or none, leaves it off.
pub fn stream_requested(stream_var: Option<&str>) -> (b: bool)
    ensures
        b == (stream_var matches Some(v) && v@ == "1"@),
{
    match stream_var {
        Some(v) => same_text(v, "1"),
        None => false,
    }
}

/// `MYNAH_SOUNDS` set to `0`, `false` or `off` silences the recording cues.
pub fn sounds_disabled(sounds_var: Option<&str>) -> (b: bool)
    ensures
        b == (sounds_var matches Some(v) && (v@ == "0"@ || v@ == "false"@ || v@ == "off"@)),
{
    match sounds_var {
        Some(v) => same_text(v, "0") || same_text(v, "false") || same_text(v, "off"),
        None => false,
    }
}

/// Where the speech model comes from.
#[derive(Debug)]
pub enum ModelSource {
    /// A path the user gave (`MYNAH_MODEL`), used as it stands.
    Path(String),
    /// A file of that name in the model data directory.
    DataFile(String),
}

/// Why no model could be chosen: `MYNAH_ENGINE` names no known engine.
#[derive(Debug)]
pub struct UnknownEngine {
    pub name: String,
}

/// A model source with its text as a character sequence.
pub enum ModelSourceView {
    Path(Seq<char>),
    DataFile(Seq<char>),
}

impl View for ModelSource {
    type V = ModelSourceView;

    open spec fn view(&self) -> ModelSourceView {
        match self {
            ModelSource::Path(p) => ModelSourceView::Path(p@),
            ModelSource::DataFile(f) => ModelSourceView::DataFile(f@),
        }
    }
}

/// The streaming-capable model (batch models cannot stream).
pub open spec fn streaming_model_file() -> Seq<char> {
    "nemotron-3.5-asr-streaming-0.6b-Q8_0.gguf"@
}

/// The Parakeet model, the default engine.
pub open spec fn parakeet_model_file() -> Seq<char> {
    "parakeet-tdt-0.6b-v3-Q8_0.gguf"@
}

/// The Whisper model (whisper.cpp `.bin` files load directly).
pub open spec fn whisper_model_file() -> Seq<char> {
    "ggml-large-v3-turbo-q5_0.bin"@
}

/// The model to load: `MYNAH_MODEL` wins; streaming needs the streaming model;
/// otherwise `MYNAH_ENGINE` (default `parakeet`) picks Parakeet or Whisper.
pub open spec fn model_choice(model_var: Option<Seq<char>>, streaming: bool, engine_var: Option<Seq<char>>) -> Result<ModelSourceView, Seq<char>> {
    match model_var {
        Some(p) => Ok(ModelSourceView::Path(p)),
        None => if streaming {
            Ok(ModelSourceView::DataFile(streaming_model_file()))
        } else {
            let engine = match engine_var {
                Some(e) => e,
                None => "parakeet"@,
            };
            if engine == "parakeet"@ {
                Ok(ModelSourceView::DataFile(parakeet_model_file()))
            } else if engine == "whisper"@ {
                Ok(ModelSourceView::DataFile(whisper_model_file()))
            } else {
                Err(engine)
            }
        },
    }
}

/// Naming the default engine is the same as leaving `MYNAH_ENGINE` unset, and
/// without `MYNAH_MODEL` or streaming an engine is accepted exactly when it is
/// `parakeet` or `whisper`, each picking its own model.
pub proof fn lemma_engine_choice(e: Seq<char>)
    ensures
        model_choice(None, false, Some("parakeet"@)) == model_choice(None, false, None),
        model_choice(None, false, None) == Ok::<ModelSourceView, Seq<char>>(ModelSourceView::DataFile(parakeet_model_file())),
        model_choice(None, false, Some(e)) is Ok <==> (e == "parakeet"@ || e == "whisper"@),
        e == "whisper"@ ==> model_choice(None, false, Some(e)) == Ok::<ModelSourceView, Seq<char>>(ModelSourceView::DataFile(whisper_model_file())),
        !(e == "parakeet"@ || e == "whisper"@) ==> model_choice(None, false, Some(e)) == Err::<ModelSourceView, Seq<char>>(e),
{
    reveal_strlit("parakeet");
    reveal_strlit("whisper");
    assert("parakeet"@ != "whisper"@) by {
        assert("parakeet"@[0] != "whisper"@[0]);
    }
}

/// Chooses the model file from `MYNAH_MODEL`, the streaming switch and
/// `MYNAH_ENGINE`.
pub fn choose_model(model_var: Option<&str>, streaming: bool, engine_var: Option<&str>) -> (r: Result<ModelSource, UnknownEngine>)
    ensures
        model_choice(
            match model_var { Some(p) => Some(p@), None => None },
            streaming,
            match engine_var { Some(e) => Some(e@), None => None },
        ) == match r {
            Ok(src) => Ok::<ModelSourceView, Seq<char>>(src@),
            Err(e) => Err(e.name@),
        },
{
    match model_var {
        Some(p) => Ok(ModelSource::Path(String::from_str(p))),
        None => {
            if streaming {
                return Ok(ModelSource::DataFile(String::from_str("nemotron-3.5-asr-streaming-0.6b-Q8_0.gguf")));
            }
            let engine: &str = match engine_var {
                Some(e) => e,
                None => "parakeet",
            };
            if same_text(engine, "parakeet") {
                Ok(ModelSource::DataFile(String::from_str("parakeet-tdt-0.6b-v3-Q8_0.gguf")))
            } else if same_text(engine, "whisper") {
                Ok(ModelSource::DataFile(String::from_str("ggml-large-v3-turbo-q5_0.bin")))
            } else {
                Err(UnknownEngine { name: String::from_str(engine) })
            }
        },
    }
}

/// The transcription language: `MYNAH_LANG`, `en` by default; a streaming
/// (locale-based) model gets `en-US` in place of a bare `en`.
pub open spec fn language_for(lang_var: Option<Seq<char>>, streaming: bool) -> Seq<char> {
    let lang = match lang_var {
        Some(l) => l,
        None => "en"@,
    };
    if streaming && !lang.contains('-') && lang == "en"@ {
        "en-US"@
    } else {
        lang
    }
}

/// Picks the language to pin for transcription.
pub fn language(lang_var: Option<&str>, streaming: bool) -> (r: String)
    ensures
        r@ == language_for(match lang_var { Some(l) => Some(l@), None => None }, streaming),
{
    let lang: &str = match lang_var {
        Some(l) => l,
        None => "en",
    };
    let chars = chars_of(lang);
    let mut has_dash = false;
    let mut i: usize = 0;
    while i < chars.len()
        invariant
            i <= chars.len(),
            has_dash == exists|k: int| 0 <= k < i && chars@[k] == '-',
        decreases chars.len() - i,
    {
        if chars[i] == '-' {
            has_dash = true;
        }
        i = i + 1;
    }
    assert(has_dash == lang@.contains('-'));
    if streaming && !has_dash && same_text(lang, "en") {
        String::from_str("en-US")
    } else {
        String::from_str(lang)
    }
}

/// Whether a model architecture name is Whisper's, ignoring ASCII case.
pub fn is_whisper_arch(arch: &str) -> (b: bool)
    ensures
        b == (ascii_lower(arch@) == "whisper"@),
{
    let lowered = lower_ascii(&chars_of(arch));
    let whisper = chars_of("whisper");
    same_chars(&lowered, &whisper)
}

} // verus!
