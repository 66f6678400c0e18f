use kalosm::chat::{OpenAICompatibleChatModelBuilder, OpenAICompatibleClient};
use kalosm::embedding::OpenAICompatibleEmbeddingModelBuilder;
use kalosm::wuerstchen::{FileSource, ModelFile, WuerstchenBuilder};

#[test]
fn chat_builder_picks_models() {
    let m = OpenAICompatibleChatModelBuilder::new().with_gpt_4o_mini().build();
    assert_eq!(m.model, "gpt-4o-mini");
    let m = OpenAICompatibleChatModelBuilder::new().with_gpt_4o().build();
    assert_eq!(m.model, "gpt-4o");
    let m = OpenAICompatibleChatModelBuilder::new().with_chat_gpt_4o().build();
    assert_eq!(m.model, "chatgpt-4o-latest");
    let m = OpenAICompatibleChatModelBuilder::new().with_model("custom").build();
    assert_eq!(m.model, "custom");
}

#[test]
fn chat_builder_carries_the_client() {
    let client = OpenAICompatibleClient::new()
        .with_base_url("http://localhost:1234/v1")
        .with_api_key("SECRET-REDACTED");
    let m = OpenAICompatibleChatModelBuilder::new()
        .with_client(client)
        .with_gpt_4o()
        .build();
    assert_eq!(m.client.base_url, "http://localhost:1234/v1");
    assert!(m.client.api_key.is_some());
}

#[test]
fn embedding_builder_picks_models() {
    let m = OpenAICompatibleEmbeddingModelBuilder::new()
        .with_text_embedding_3_small()
        .build();
    assert_eq!(m.model, "text-embedding-3-small");
    let m = OpenAICompatibleEmbeddingModelBuilder::new()
        .with_text_embedding_3_large()
        .build();
    assert_eq!(m.model, "text-embedding-3-large");
    let m = OpenAICompatibleEmbeddingModelBuilder::new()
        .with_model("custom-embedder")
        .with_client(OpenAICompatibleClient::new())
        .build();
    assert_eq!(m.model, "custom-embedder");
}

#[test]
fn embedding_indices_validation() {
    assert!(kalosm::embedding::embedding_indices_complete(&vec![0, 1, 2]));
    assert!(kalosm::embedding::embedding_indices_complete(&vec![]));
    assert!(!kalosm::embedding::embedding_indices_complete(&vec![0, 2]));
    assert!(!kalosm::embedding::embedding_indices_complete(&vec![1, 0]));
}

#[test]
fn wuerstchen_builder_defaults_and_overrides() {
    let b = WuerstchenBuilder::default();
    assert!(!b.use_flash_attn);
    assert!(b.decoder_weights.is_none());
    let b = b
        .with_flash_attn(true)
        .with_decoder_weights("decoder.safetensors")
        .with_clip_weights("clip.safetensors")
        .with_prior_clip_weights("prior_clip.safetensors")
        .with_prior_weights("prior.safetensors")
        .with_vqgan_weights("vqgan.safetensors")
        .with_tokenizer("tokenizer.json")
        .with_prior_tokenizer("prior_tokenizer.json");
    assert!(b.use_flash_attn);
    assert_eq!(b.decoder_weights.as_deref(), Some("decoder.safetensors"));
    assert_eq!(b.prior_tokenizer.as_deref(), Some("prior_tokenizer.json"));
}

#[test]
fn wuerstchen_download_check() {
    let b = WuerstchenBuilder::default();
    // Nothing overridden, nothing cached: a download is required.
    assert!(b.requires_download_given(false, false, false, false, false, false, false));
    // Everything cached: nothing to download.
    assert!(!b.requires_download_given(true, true, true, true, true, true, true));
    // An override replaces the missing cache entry.
    let b = b.with_decoder_weights("local.safetensors");
    assert!(!b.requires_download_given(false, true, true, true, true, true, true));
    assert!(b.requires_download_given(true, false, true, true, true, true, true));
}

#[test]
fn model_files_resolve_to_their_sources() {
    match ModelFile::Tokenizer.get(None) {
        FileSource::Huggingface { repo, revision, path } => {
            assert_eq!(repo, "warp-ai/wuerstchen");
            assert_eq!(revision, "main");
            assert_eq!(path, "tokenizer/tokenizer.json");
        }
        _ => panic!("expected a hosted source"),
    }
    match ModelFile::Prior.get(None) {
        FileSource::Huggingface { repo, path, .. } => {
            assert_eq!(repo, "warp-ai/wuerstchen-prior");
            assert_eq!(path, "prior/diffusion_pytorch_model.safetensors");
        }
        _ => panic!("expected a hosted source"),
    }
    match ModelFile::Clip.get(Some("local_clip.safetensors".to_string())) {
        FileSource::Local(p) => assert_eq!(p, "local_clip.safetensors"),
        _ => panic!("expected a local source"),
    }
}
