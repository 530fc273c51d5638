//! The embedding model: where it is loaded from, where it runs, and what it is given.
use vstd::prelude::*;

verus! {

/// How many numbers an embedding has.
pub const EMBEDDING_DIM: usize = 384;

/// How many tokens the model takes.
pub const MAX_TOKENS: usize = 512;

/// The files that make up the model.
#[derive(Clone, Copy, Debug)]
pub struct ModelFiles {
    pub config: &'static str,
    pub tokenizer: &'static str,
    pub weights: &'static str,
}

/// Where the model is loaded from.
#[derive(Clone, Copy, Debug)]
pub enum ModelSource {
    /// A directory beside the data.
    Local(&'static str),
    /// A repository of models.
    Hub(&'static str),
}

/// The files that make up the model, wherever it is loaded from.
pub fn model_files() -> (r: ModelFiles)
    ensures
        r.config@ == "config.json"@,
        r.tokenizer@ == "tokenizer.json"@,
        r.weights@ == "model.safetensors"@,
{
    ModelFiles {
        config: "config.json",
        tokenizer: "tokenizer.json",
        weights: "model.safetensors",
    }
}

/// Where the model is loaded from: the directory beside the data, where its configuration is
/// there, and the repository otherwise.
pub fn model_source(local_config: bool) -> (r: ModelSource)
    ensures
        local_config ==> (r matches ModelSource::Local(dir) && dir@ == "model"@),
        !local_config ==> (r matches ModelSource::Hub(repo) && repo@
            == "sentence-transformers/all-MiniLM-L6-v2"@),
{
    if local_config {
        ModelSource::Local("model")
    } else {
        ModelSource::Hub("sentence-transformers/all-MiniLM-L6-v2")
    }
}

/// What the model runs on.
#[derive(Clone, Copy, PartialEq, Eq, Structural, Debug)]
pub enum DeviceKind {
    Cuda,
    Metal,
    Cpu,
}

/// The best of the devices that are there: CUDA before Metal before the processor.
pub fn best_device(cuda: bool, metal: bool) -> (r: DeviceKind)
    ensures
        r == if cuda {
            DeviceKind::Cuda
        } else if metal {
            DeviceKind::Metal
        } else {
            DeviceKind::Cpu
        },
{
    if cuda {
        DeviceKind::Cuda
    } else if metal {
        DeviceKind::Metal
    } else {
        DeviceKind::Cpu
    }
}

/// The tokens of a text that the model is given: the first of them, as many as it takes. For an
/// empty text, or without any tokens, there is nothing to give, and the embedding is all zeros. A
/// tokenizer may well mark the ends of an empty text with tokens, so both are looked at.
pub fn prepare_tokens(text: &str, ids: Vec<u32>) -> (r: Option<Vec<u32>>)
    ensures
        r is None <==> text@.len() == 0 || ids@.len() == 0,
        r matches Some(v) ==> v@ == if ids@.len() <= MAX_TOKENS {
            ids@
        } else {
            ids@.take(MAX_TOKENS as int)
        },
        r matches Some(v) ==> v@.len() == (if ids@.len() <= 512 {
            ids@.len()
        } else {
            512
        }) && forall|i: int| 0 <= i < v@.len() ==> #[trigger] v@[i] == ids@[i],
{
    if text.is_empty() || ids.len() == 0 {
        return None;
    }
    let mut kept: Vec<u32> = ids;
    kept.truncate(MAX_TOKENS);
    Some(kept)
}

} // verus!
