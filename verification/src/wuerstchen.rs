//! Configuration for the Wuerstchen image diffusion model: which weight and
//! tokenizer files to load, where each file comes from, and whether anything
//! still has to be downloaded.

use vstd::prelude::*;

verus! {

/// Where one model file comes from: a local path, or a file of a hosted
/// repository.
#[derive(Debug)]
pub enum FileSource {
    /// A file on the local disk.
    Local(String),
    /// A file of a hosted model repository, by repository, revision and
    /// path.
    Huggingface {
        /// The repository id.
        repo: String,
        /// The revision to fetch.
        revision: String,
        /// The file's path inside the repository.
        path: String,
    },
}

/// The files a Wuerstchen model is made of.
#[derive(Debug, Clone, Copy, PartialEq, Eq, Structural)]
pub enum ModelFile {
    /// The main tokenizer.
    Tokenizer,
    /// The tokenizer used by the prior model.
    PriorTokenizer,
    /// The CLIP text-encoder weights.
    Clip,
    /// The CLIP weights used by the prior model.
    PriorClip,
    /// The decoder weights.
    Decoder,
    /// The VQGAN weights.
    VqGan,
    /// The prior weights.
    Prior,
}

/// The repository holding the main model files.
pub open spec fn main_repo() -> Seq<char> {
    "warp-ai/wuerstchen"@
}

/// The repository holding the prior model files.
pub open spec fn prior_repo() -> Seq<char> {
    "warp-ai/wuerstchen-prior"@
}

/// The hosted location of each model file.
pub open spec fn default_source(f: ModelFile) -> (Seq<char>, Seq<char>) {
    match f {
        ModelFile::Tokenizer => (main_repo(), "tokenizer/tokenizer.json"@),
        ModelFile::PriorTokenizer => (prior_repo(), "tokenizer/tokenizer.json"@),
        ModelFile::Clip => (main_repo(), "text_encoder/model.safetensors"@),
        ModelFile::PriorClip => (prior_repo(), "text_encoder/model.safetensors"@),
        ModelFile::Decoder => (main_repo(), "decoder/diffusion_pytorch_model.safetensors"@),
        ModelFile::VqGan => (main_repo(), "vqgan/diffusion_pytorch_model.safetensors"@),
        ModelFile::Prior => (prior_repo(), "prior/diffusion_pytorch_model.safetensors"@),
    }
}

impl ModelFile {
    /// The hosted source of this file, at the main revision.
    pub fn source(&self) -> (r: FileSource)
        ensures
            r matches FileSource::Huggingface { repo, revision, path } && repo@ == default_source(
                *self,
            ).0 && revision@ == "main"@ && path@ == default_source(*self).1,
    {
        let (repo, path): (&str, &str) = match self {
            ModelFile::Tokenizer => ("warp-ai/wuerstchen", "tokenizer/tokenizer.json"),
            ModelFile::PriorTokenizer => ("warp-ai/wuerstchen-prior", "tokenizer/tokenizer.json"),
            ModelFile::Clip => ("warp-ai/wuerstchen", "text_encoder/model.safetensors"),
            ModelFile::PriorClip => ("warp-ai/wuerstchen-prior", "text_encoder/model.safetensors"),
            ModelFile::Decoder => (
                "warp-ai/wuerstchen",
                "decoder/diffusion_pytorch_model.safetensors",
            ),
            ModelFile::VqGan => ("warp-ai/wuerstchen", "vqgan/diffusion_pytorch_model.safetensors"),
            ModelFile::Prior => (
                "warp-ai/wuerstchen-prior",
                "prior/diffusion_pytorch_model.safetensors",
            ),
        };
        FileSource::Huggingface {
            repo: repo.to_owned(),
            revision: "main".to_owned(),
            path: path.to_owned(),
        }
    }

    /// The source to load this file from: the override, if the caller gave
    /// one, else the hosted default.
    pub fn get(&self, filename: Option<String>) -> (r: FileSource)
        ensures
            (match filename {
                Option::Some(f) => r matches FileSource::Local(p) && p@ == f@,
                Option::None => r matches FileSource::Huggingface { repo, revision, path } && repo@
                    == default_source(*self).0 && revision@ == "main"@ && path@ == default_source(
                    *self,
                ).1,
            }),
    {
        match filename {
            Option::Some(f) => FileSource::Local(f),
            Option::None => self.source(),
        }
    }
}

/// A builder for the Wuerstchen model: an override path for each weight or
/// tokenizer file, and whether to use flash attention.
#[derive(Debug)]
pub struct WuerstchenBuilder {
    /// Whether to use the flash attention implementation.
    pub use_flash_attn: bool,
    /// The decoder weight file, in .safetensors format.
    pub decoder_weights: Option<String>,
    /// The CLIP weight file, in .safetensors format.
    pub clip_weights: Option<String>,
    /// The CLIP weight file used by the prior model, in .safetensors format.
    pub prior_clip_weights: Option<String>,
    /// The prior weight file, in .safetensors format.
    pub prior_weights: Option<String>,
    /// The VQGAN weight file, in .safetensors format.
    pub vqgan_weights: Option<String>,
    /// The file specifying the tokenizer used for tokenization.
    pub tokenizer: Option<String>,
    /// The file specifying the tokenizer used for prior tokenization.
    pub prior_tokenizer: Option<String>,
}

impl Default for WuerstchenBuilder {
    /// A builder with no overrides and flash attention off.
    fn default() -> (b: WuerstchenBuilder)
        ensures
            !b.use_flash_attn,
            b.decoder_weights is None,
            b.clip_weights is None,
            b.prior_clip_weights is None,
            b.prior_weights is None,
            b.vqgan_weights is None,
            b.tokenizer is None,
            b.prior_tokenizer is None,
    {
        WuerstchenBuilder {
            use_flash_attn: false,
            decoder_weights: Option::None,
            clip_weights: Option::None,
            prior_clip_weights: Option::None,
            prior_weights: Option::None,
            vqgan_weights: Option::None,
            tokenizer: Option::None,
            prior_tokenizer: Option::None,
        }
    }
}

impl WuerstchenBuilder {
    /// Set whether to use the Flash Attention implementation.
    pub fn with_flash_attn(self, use_flash_attn: bool) -> (b: WuerstchenBuilder)
        ensures
            b == (WuerstchenBuilder { use_flash_attn, ..self }),
    {
        WuerstchenBuilder { use_flash_attn, ..self }
    }

    /// Set the decoder weight file, in .safetensors format.
    pub fn with_decoder_weights(self, decoder_weights: &str) -> (b: WuerstchenBuilder)
        ensures
            b.decoder_weights matches Option::Some(w) && w@ == decoder_weights@,
            b == (WuerstchenBuilder { decoder_weights: b.decoder_weights, ..self }),
    {
        WuerstchenBuilder { decoder_weights: Option::Some(decoder_weights.to_owned()), ..self }
    }

    /// Set the CLIP weight file, in .safetensors format.
    pub fn with_clip_weights(self, clip_weights: &str) -> (b: WuerstchenBuilder)
        ensures
            b.clip_weights matches Option::Some(w) && w@ == clip_weights@,
            b == (WuerstchenBuilder { clip_weights: b.clip_weights, ..self }),
    {
        WuerstchenBuilder { clip_weights: Option::Some(clip_weights.to_owned()), ..self }
    }

    /// Set the CLIP weight file used by the prior model, in .safetensors
    /// format.
    pub fn with_prior_clip_weights(self, prior_clip_weights: &str) -> (b: WuerstchenBuilder)
        ensures
            b.prior_clip_weights matches Option::Some(w) && w@ == prior_clip_weights@,
            b == (WuerstchenBuilder { prior_clip_weights: b.prior_clip_weights, ..self }),
    {
        WuerstchenBuilder {
            prior_clip_weights: Option::Some(prior_clip_weights.to_owned()),
            ..self
        }
    }

    /// Set the prior weight file, in .safetensors format.
    pub fn with_prior_weights(self, prior_weights: &str) -> (b: WuerstchenBuilder)
        ensures
            b.prior_weights matches Option::Some(w) && w@ == prior_weights@,
            b == (WuerstchenBuilder { prior_weights: b.prior_weights, ..self }),
    {
        WuerstchenBuilder { prior_weights: Option::Some(prior_weights.to_owned()), ..self }
    }

    /// Set the Vector Quantized Generative Adversarial Network weight file,
    /// in .safetensors format.
    pub fn with_vqgan_weights(self, vqgan_weights: &str) -> (b: WuerstchenBuilder)
        ensures
            b.vqgan_weights matches Option::Some(w) && w@ == vqgan_weights@,
            b == (WuerstchenBuilder { vqgan_weights: b.vqgan_weights, ..self }),
    {
        WuerstchenBuilder { vqgan_weights: Option::Some(vqgan_weights.to_owned()), ..self }
    }

    /// Set the file specifying the tokenizer to use for tokenization.
    pub fn with_tokenizer(self, tokenizer: &str) -> (b: WuerstchenBuilder)
        ensures
            b.tokenizer matches Option::Some(w) && w@ == tokenizer@,
            b == (WuerstchenBuilder { tokenizer: b.tokenizer, ..self }),
    {
        WuerstchenBuilder { tokenizer: Option::Some(tokenizer.to_owned()), ..self }
    }

    /// Set the file specifying the tokenizer to use for prior tokenization.
    pub fn with_prior_tokenizer(self, prior_tokenizer: &str) -> (b: WuerstchenBuilder)
        ensures
            b.prior_tokenizer matches Option::Some(w) && w@ == prior_tokenizer@,
            b == (WuerstchenBuilder { prior_tokenizer: b.prior_tokenizer, ..self }),
    {
        WuerstchenBuilder { prior_tokenizer: Option::Some(prior_tokenizer.to_owned()), ..self }
    }

    /// Whether anything still has to be downloaded, given which of the seven
    /// default files are already cached: a file needs no download when the
    /// caller overrode its path or when its default is cached.
    pub fn requires_download_given(
        &self,
        decoder_cached: bool,
        clip_cached: bool,
        prior_clip_cached: bool,
        prior_cached: bool,
        vqgan_cached: bool,
        tokenizer_cached: bool,
        prior_tokenizer_cached: bool,
    ) -> (r: bool)
        ensures
            r == !{
                &&& (self.decoder_weights is Some || decoder_cached)
                &&& (self.clip_weights is Some || clip_cached)
                &&& (self.prior_clip_weights is Some || prior_clip_cached)
                &&& (self.prior_weights is Some || prior_cached)
                &&& (self.vqgan_weights is Some || vqgan_cached)
                &&& (self.tokenizer is Some || tokenizer_cached)
                &&& (self.prior_tokenizer is Some || prior_tokenizer_cached)
            },
    {
        let downloaded_decoder = self.decoder_weights.is_some() || decoder_cached;
        let downloaded_clip = self.clip_weights.is_some() || clip_cached;
        let downloaded_prior_clip = self.prior_clip_weights.is_some() || prior_clip_cached;
        let downloaded_prior = self.prior_weights.is_some() || prior_cached;
        let downloaded_vqgan = self.vqgan_weights.is_some() || vqgan_cached;
        let downloaded_tokenizer = self.tokenizer.is_some() || tokenizer_cached;
        let downloaded_prior_tokenizer = self.prior_tokenizer.is_some() || prior_tokenizer_cached;
        !(downloaded_decoder && downloaded_clip && downloaded_prior_clip && downloaded_prior
            && downloaded_vqgan && downloaded_tokenizer && downloaded_prior_tokenizer)
    }
}

} // verus!
