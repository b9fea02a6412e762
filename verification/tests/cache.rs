//! Cache keys and what a change makes stale.

use sha2::{Digest, Sha256};
use soundar_video::cache::{
    CacheKey, CacheKeyBuilder, CacheStage, InvalidationPlan, JsonEntry, JsonValue, ManifestChange,
};
use soundar_video::error::VideoErrorCode;

fn text(value: &str) -> JsonValue {
    JsonValue::Text(value.into())
}

fn number(value: i64) -> JsonValue {
    JsonValue::Integer(value)
}

fn object(members: Vec<(&str, JsonValue)>) -> JsonValue {
    JsonValue::Object(
        members
            .into_iter()
            .map(|(name, value)| JsonEntry { name: name.into(), value })
            .collect(),
    )
}

fn hash(byte: char) -> String {
    std::iter::repeat(byte).take(64).collect()
}

#[test]
fn canonical_key_ignores_object_and_artifact_insertion_order() {
    let left = CacheKeyBuilder::new(CacheStage::SceneRender, "scene-v2")
        .for_scene("scene-1")
        .artifact("audio", &hash('a'))
        .artifact("video", &hash('b'))
        .tool_version("ffmpeg", "8.0.1")
        .manifest_slice(object(vec![
            ("layout", object(vec![("height", number(1920)), ("width", number(1080))])),
            ("script", text("hi")),
        ]))
        .profile(object(vec![("crf", number(30)), ("codec", text("h264_nvenc"))]))
        .build()
        .unwrap();

    let layout = object(vec![("width", number(1080)), ("height", number(1920))]);
    let slice = object(vec![("script", text("hi")), ("layout", layout)]);
    let right = CacheKeyBuilder::new(CacheStage::SceneRender, "scene-v2")
        .for_scene("scene-1")
        .artifact("video", &hash('b'))
        .artifact("audio", &hash('a'))
        .tool_version("ffmpeg", "8.0.1")
        .manifest_slice(slice)
        .profile(object(vec![("codec", text("h264_nvenc")), ("crf", number(30))]))
        .build()
        .unwrap();

    assert_eq!(left, right);
    assert_eq!(left.as_str().len(), 64);
}

#[test]
fn tool_or_array_order_changes_key() {
    let base = CacheKeyBuilder::new(CacheStage::Proxy, "1")
        .artifact("source", &hash('a'))
        .tool_version("ffmpeg", "8.0.1")
        .profile(object(vec![("filters", JsonValue::List(vec![text("scale"), text("fps")]))]))
        .build()
        .unwrap();
    let changed_tool = CacheKeyBuilder::new(CacheStage::Proxy, "1")
        .artifact("source", &hash('a'))
        .tool_version("ffmpeg", "8.0.2")
        .profile(object(vec![("filters", JsonValue::List(vec![text("scale"), text("fps")]))]))
        .build()
        .unwrap();
    let changed_order = CacheKeyBuilder::new(CacheStage::Proxy, "1")
        .artifact("source", &hash('a'))
        .tool_version("ffmpeg", "8.0.1")
        .profile(object(vec![("filters", JsonValue::List(vec![text("fps"), text("scale")]))]))
        .build()
        .unwrap();
    assert_ne!(base, changed_tool);
    assert_ne!(base, changed_order);
}

#[test]
fn floating_point_cache_inputs_are_rejected() {
    let error = CacheKeyBuilder::new(CacheStage::Proxy, "1")
        .profile(object(vec![("quality", JsonValue::Decimal { text: "0.75".into(), bits: 0.75f64.to_bits() })]))
        .build()
        .unwrap_err();
    assert_eq!(error.code, VideoErrorCode::InvalidCacheInput);
}

#[test]
fn scene_revision_only_invalidates_that_segment_and_aggregates() {
    let plan = InvalidationPlan::for_changes(&vec![ManifestChange::SceneScript {
        scene_id: "scene-2".into(),
    }])
    .unwrap();
    assert!(plan.invalidates(CacheStage::Speech, Some("scene-2")));
    assert!(plan.invalidates(CacheStage::SceneRender, Some("scene-2")));
    assert!(!plan.invalidates(CacheStage::SceneRender, Some("scene-1")));
    assert!(!plan.invalidates(CacheStage::Music, Some("scene-2")));
    assert!(plan.invalidates(CacheStage::PreviewRender, None));
    assert!(plan.invalidates(CacheStage::FinalRender, Some("scene-1")));
}

#[test]
fn provenance_change_does_not_destroy_media_caches() {
    let plan = InvalidationPlan::for_changes(&vec![ManifestChange::ProvenanceOnly]).unwrap();
    assert!(plan.invalidates(CacheStage::PublishPackage, None));
    assert!(!plan.invalidates(CacheStage::SceneRender, None));
    assert!(!plan.invalidates(CacheStage::Transcription, None));
}

#[test]
fn source_change_invalidates_ingest_and_all_downstream_stages() {
    let plan = InvalidationPlan::for_changes(&vec![ManifestChange::Source]).unwrap();
    assert!(plan.invalidates(CacheStage::Probe, None));
    assert!(plan.invalidates(CacheStage::Transcription, None));
    assert!(plan.invalidates(CacheStage::FinalRender, Some("any-scene")));
}

#[test]
fn a_key_is_the_digest_of_the_input_as_canonical_json() {
    let awkward = "say \"hi\"\\ \n\t\u{1} \u{e9} \u{1f600}";
    let key = CacheKeyBuilder::new(CacheStage::SceneAnalysis, "v1")
        .artifact("video", &hash('b'))
        .artifact("audio", &hash('a'))
        .tool_version("whisper", "3")
        .tool_version("ffmpeg", "8")
        .manifest_slice(object(vec![
            ("z", JsonValue::Null),
            ("a", JsonValue::List(vec![number(-1), JsonValue::Natural(u64::MAX), JsonValue::Bool(true)])),
            ("\u{e9}", text(awkward)),
        ]))
        .profile(object(vec![]))
        .build()
        .unwrap();
    let quoted = serde_json::Value::String(awkward.into()).to_string();
    let serialized = format!(
        "{{\"stage\":\"scene_analysis\",\"stage_version\":\"v1\",\"scene_id\":null,\"input_artifacts\":[{{\"role\":\"audio\",\"sha256\":\"{}\"}},{{\"role\":\"video\",\"sha256\":\"{}\"}}],\"tool_versions\":{{\"ffmpeg\":\"8\",\"whisper\":\"3\"}},\"manifest_slice\":{{\"a\":[-1,18446744073709551615,true],\"z\":null,\"\u{e9}\":{quoted}}},\"profile\":{{}}}}",
        hash('a'),
        hash('b'),
    );
    assert!(quoted.contains("\\\"hi\\\"") && quoted.contains("\\u0001") && quoted.contains('\u{e9}'));
    let mut digest = Sha256::new();
    digest.update(b"soundar-video-cache-v1\0");
    digest.update((serialized.len() as u64).to_be_bytes());
    digest.update(serialized.as_bytes());
    assert_eq!(key.as_str(), format!("{:x}", digest.finalize()));
}

#[test]
fn a_key_is_sixty_four_lowercase_hexadecimal_digits() {
    assert_eq!(CacheKey::parse(&hash('a')).unwrap().into_string(), hash('a'));
    for bad in [hash('A'), hash('g'), "ab".to_string(), format!("{}0", hash('a'))] {
        assert_eq!(CacheKey::parse(&bad).unwrap_err().code, VideoErrorCode::InvalidCacheInput);
    }
}

#[test]
fn more_changes_never_make_less_stale() {
    let one = vec![ManifestChange::CaptionStyle];
    let more = vec![ManifestChange::CaptionStyle, ManifestChange::Voice { scene_id: "scene-1".into() }];
    let few = InvalidationPlan::for_changes(&one).unwrap();
    let many = InvalidationPlan::for_changes(&more).unwrap();
    for stage in [
        CacheStage::Probe,
        CacheStage::Speech,
        CacheStage::Captions,
        CacheStage::SceneRender,
        CacheStage::PreviewRender,
        CacheStage::FinalRender,
        CacheStage::PublishPackage,
    ] {
        for scene in [None, Some("scene-1"), Some("scene-2")] {
            assert!(!few.invalidates(stage, scene) || many.invalidates(stage, scene));
        }
    }
    assert!(!few.invalidates(CacheStage::Speech, Some("scene-1")));
    assert!(many.invalidates(CacheStage::Speech, Some("scene-1")));
    assert!(InvalidationPlan::for_changes(&vec![]).unwrap().is_empty());
}

#[test]
fn every_change_reaches_the_published_package() {
    for change in [
        ManifestChange::Source,
        ManifestChange::Transcript,
        ManifestChange::ClipSelection,
        ManifestChange::ScenePlan,
        ManifestChange::SceneScript { scene_id: "scene-1".into() },
        ManifestChange::Voice { scene_id: "scene-1".into() },
        ManifestChange::Music { scene_id: None },
        ManifestChange::CaptionContent { scene_id: Some("scene-1".into()) },
        ManifestChange::CaptionStyle,
        ManifestChange::Layout { scene_id: None },
        ManifestChange::AudioMix { scene_id: None },
        ManifestChange::Tracking { scene_id: Some("scene-1".into()) },
        ManifestChange::RenderProfile,
        ManifestChange::ProvenanceOnly,
    ] {
        let plan = InvalidationPlan::for_changes(&vec![change]).unwrap();
        assert!(plan.invalidates(CacheStage::PublishPackage, None));
    }
}

#[test]
fn a_change_must_name_a_usable_scene() {
    let error = InvalidationPlan::for_changes(&vec![ManifestChange::Voice { scene_id: "not a scene".into() }]).unwrap_err();
    assert_eq!(error.code, VideoErrorCode::InvalidIdentifier);
}

#[test]
fn member_order_shows_at_no_depth() {
    let inner = object(vec![("z", number(1)), ("a", JsonValue::List(vec![object(vec![("q", text("x")), ("b", number(2))])]))]);
    let turned = object(vec![("a", JsonValue::List(vec![object(vec![("b", number(2)), ("q", text("x"))])])), ("z", number(1))]);
    let key = |value: JsonValue| {
        CacheKeyBuilder::new(CacheStage::Proxy, "1").profile(object(vec![("filters", value)])).build().unwrap()
    };
    assert_eq!(key(inner), key(turned));
}

#[test]
fn the_last_member_of_a_name_counts() {
    let key = |value: JsonValue| CacheKeyBuilder::new(CacheStage::Proxy, "1").profile(value).build().unwrap();
    let twice = key(object(vec![("crf", number(30)), ("codec", text("h264")), ("crf", number(18))]));
    assert_eq!(twice, key(object(vec![("codec", text("h264")), ("crf", number(18))])));
    assert_ne!(twice, key(object(vec![("codec", text("h264")), ("crf", number(30))])));
}

#[test]
fn a_refused_change_leaves_the_plan_as_it_was() {
    let mut plan = InvalidationPlan::for_changes(&vec![ManifestChange::CaptionStyle]).unwrap();
    let before = plan.clone();
    for change in [
        ManifestChange::SceneScript { scene_id: "not a scene".into() },
        ManifestChange::Voice { scene_id: "".into() },
        ManifestChange::Music { scene_id: Some("not a scene".into()) },
        ManifestChange::CaptionContent { scene_id: Some("not a scene".into()) },
        ManifestChange::Layout { scene_id: Some("not a scene".into()) },
        ManifestChange::AudioMix { scene_id: Some("not a scene".into()) },
        ManifestChange::Tracking { scene_id: Some("not a scene".into()) },
    ] {
        assert_eq!(plan.apply(&change).unwrap_err().code, VideoErrorCode::InvalidIdentifier);
        assert_eq!(plan, before);
    }
}

#[test]
fn a_plan_does_not_show_how_often_or_in_what_order_things_changed() {
    let voice = ManifestChange::Voice { scene_id: "scene-2".into() };
    let script = ManifestChange::SceneScript { scene_id: "scene-1".into() };
    let one = InvalidationPlan::for_changes(&vec![voice.clone(), script.clone(), ManifestChange::CaptionStyle]).unwrap();
    let other = InvalidationPlan::for_changes(&vec![
        ManifestChange::CaptionStyle,
        script.clone(),
        voice.clone(),
        script,
        voice,
        ManifestChange::CaptionStyle,
    ])
    .unwrap();
    assert_eq!(one, other);
    for (place, stage) in one.global_stages.iter().enumerate() {
        assert!(!one.global_stages[..place].contains(stage));
    }
    for (place, stage) in one.scene_stages.iter().enumerate() {
        assert!(!one.scene_stages[..place].contains(stage));
    }
}
