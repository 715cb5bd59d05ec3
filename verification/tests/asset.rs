use std::sync::Arc;

use ferrox::asset::graph::DependencyGraph;
use ferrox::asset::manager::AssetManager;
use ferrox::asset::{kind_from_path, AssetId, AssetKind, AssetSource};
use ferrox::error::Error;
use ferrox::frame::{Frame, PixelFormat};

#[test]
fn fnv1a_known_values() {
    assert_eq!(AssetId::of_bytes(b"").0, 0xcbf2_9ce4_8422_2325);
    assert_eq!(AssetId::of_bytes(b"a").0, 0xaf63_dc4c_8601_ec8c);
    assert_eq!(AssetId::of_str("foobar").0, 0x8594_4171_f739_67e8);
}

#[test]
fn identical_sources_share_an_id() {
    let a = AssetSource::Bytes(Arc::new(vec![1, 2, 3]));
    let b = AssetSource::Bytes(Arc::new(vec![1, 2, 3]));
    let c = AssetSource::Bytes(Arc::new(vec![1, 2, 4]));
    assert_eq!(a.id(), b.id());
    assert_ne!(a.id(), c.id());
    let f = AssetSource::File("media/clip.mp4".to_string());
    assert_eq!(f.id(), AssetId::of_str("media/clip.mp4"));
}

#[test]
fn kind_from_extension_is_case_insensitive() {
    assert_eq!(AssetKind::from_extension("PNG"), Some(AssetKind::Image));
    assert_eq!(AssetKind::from_extension("jpeg"), Some(AssetKind::Image));
    assert_eq!(AssetKind::from_extension("Mp4"), Some(AssetKind::Video));
    assert_eq!(AssetKind::from_extension("opus"), Some(AssetKind::Audio));
    assert_eq!(AssetKind::from_extension("woff2"), Some(AssetKind::Font));
    assert_eq!(AssetKind::from_extension("cube"), Some(AssetKind::Lut));
    assert_eq!(AssetKind::from_extension("svg"), Some(AssetKind::Svg));
    assert_eq!(AssetKind::from_extension("lottie"), Some(AssetKind::Lottie));
    assert_eq!(AssetKind::from_extension("VTT"), Some(AssetKind::Subtitle));
    assert_eq!(AssetKind::from_extension("xyz"), None);
    assert_eq!(AssetKind::from_extension(""), None);
}

#[test]
fn source_extension_and_hint() {
    let f = AssetSource::File("dir/photo.JPG".to_string());
    assert_eq!(f.extension().as_deref(), Some("JPG"));
    assert_eq!(f.hint(), "dir/photo.JPG");
    let b = AssetSource::Bytes(Arc::new(vec![0]));
    assert_eq!(b.extension(), None);
    assert_eq!(b.hint(), "<bytes>");
    assert_eq!(AssetSource::File("noext".to_string()).extension(), None);
    assert_eq!(AssetSource::File(".hidden".to_string()).extension(), None);
}

#[test]
fn kind_from_path_uses_extension() {
    assert_eq!(kind_from_path("a/b/c.JPG"), Some(AssetKind::Image));
    assert_eq!(kind_from_path("song.flac"), Some(AssetKind::Audio));
    assert_eq!(kind_from_path("README"), None);
    assert_eq!(kind_from_path("x.unknown"), None);
}

fn sorted(mut v: Vec<AssetId>) -> Vec<u64> {
    v.sort();
    v.into_iter().map(|a| a.0).collect()
}

#[test]
fn graph_records_both_directions() {
    let mut g = DependencyGraph::new();
    g.add_dependency(AssetId(1), AssetId(2));
    g.add_dependency(AssetId(1), AssetId(3));
    g.add_dependency(AssetId(1), AssetId(3));
    assert_eq!(sorted(g.dependencies(AssetId(1))), vec![2, 3]);
    assert_eq!(sorted(g.dependents(AssetId(3))), vec![1]);
    assert!(g.dependencies(AssetId(9)).is_empty());
}

#[test]
fn graph_remove_drops_touching_edges() {
    let mut g = DependencyGraph::new();
    g.add_dependency(AssetId(1), AssetId(2));
    g.add_dependency(AssetId(2), AssetId(3));
    g.add_dependency(AssetId(4), AssetId(2));
    g.remove(AssetId(2));
    assert!(g.dependencies(AssetId(1)).is_empty());
    assert!(g.dependencies(AssetId(4)).is_empty());
    assert!(g.dependents(AssetId(3)).is_empty());
    assert!(g.dependencies(AssetId(2)).is_empty());
}

#[test]
fn graph_transitive_dependencies_handle_cycles() {
    let mut g = DependencyGraph::new();
    g.add_dependency(AssetId(1), AssetId(2));
    g.add_dependency(AssetId(2), AssetId(3));
    g.add_dependency(AssetId(3), AssetId(1));
    g.add_dependency(AssetId(3), AssetId(4));
    assert_eq!(sorted(g.transitive_dependencies(AssetId(1))), vec![1, 2, 3, 4]);
    assert_eq!(sorted(g.transitive_dependencies(AssetId(4))), Vec::<u64>::new());
}

#[test]
fn manager_import_is_deduplicated() {
    let mut m = AssetManager::new();
    let bytes = Arc::new(vec![1u8, 2, 3]);
    let a = m.import(AssetSource::Bytes(bytes.clone()), AssetKind::Image);
    let b = m.import(AssetSource::Bytes(Arc::new(vec![1u8, 2, 3])), AssetKind::Image);
    assert_eq!(a, b);
    assert_eq!(a, AssetId::of_bytes(&[1, 2, 3]));
    assert_eq!(m.count(), 1);
    assert_eq!(m.refcount(a), Some(2));
    let meta = m.metadata(a).unwrap();
    assert_eq!((meta.id, meta.kind, meta.byte_size, meta.source.as_str()), (a, AssetKind::Image, 3, "<bytes>"));
    assert!(matches!(m.source_of(a), Ok(AssetSource::Bytes(v)) if *v == vec![1, 2, 3]));
}

#[test]
fn manager_import_file_uses_extension() {
    let mut m = AssetManager::new();
    let id = m.import_file("photos/a.PNG").unwrap();
    assert_eq!(id, AssetId::of_str("photos/a.PNG"));
    assert_eq!(m.metadata(id).unwrap().kind, AssetKind::Image);
    assert_eq!(m.metadata(id).unwrap().byte_size, 0);
    match m.import_file("notes.xyz") {
        Err(Error::UnsupportedFormat(msg)) => assert_eq!(msg, "unknown asset extension: notes.xyz"),
        other => panic!("unexpected {other:?}"),
    }
    assert_eq!(m.count(), 1);
}

#[test]
fn manager_release_cascades_through_dependencies() {
    let mut m = AssetManager::new();
    let a = m.import(AssetSource::File("a.json".to_string()), AssetKind::Lottie);
    let b = m.import(AssetSource::File("b.png".to_string()), AssetKind::Image);
    let c = m.import(AssetSource::File("c.cube".to_string()), AssetKind::Lut);
    m.add_dependency(a, b).unwrap();
    m.add_dependency(b, c).unwrap();
    assert_eq!((m.refcount(b), m.refcount(c)), (Some(2), Some(2)));
    let mut removed = Vec::new();
    // b keeps the reference a holds.
    assert!(!m.release(b, &mut removed));
    assert!(removed.is_empty());
    assert_eq!(m.refcount(b), Some(1));
    // Releasing a removes it, then b (its last reference went with a); c
    // keeps the reference from its own import.
    assert!(m.release(a, &mut removed));
    assert_eq!(removed, vec![a, b]);
    assert!(!m.contains(a) && !m.contains(b));
    assert_eq!(m.refcount(c), Some(1));
    assert!(m.dependencies(b).is_empty());
    assert!(m.dependents(c).is_empty());
    // Releasing what is not registered changes nothing.
    assert!(!m.release(a, &mut removed));
    assert_eq!(removed.len(), 2);
}

#[test]
fn manager_retain_and_missing_assets() {
    let mut m = AssetManager::new();
    match m.retain(AssetId(42)) {
        Err(Error::NotFound(msg)) => assert_eq!(msg, "asset 42"),
        other => panic!("unexpected {other:?}"),
    }
    let a = m.import(AssetSource::File("x.wav".to_string()), AssetKind::Audio);
    match m.add_dependency(a, AssetId(7)) {
        Err(Error::NotFound(msg)) => assert_eq!(msg, "asset 7"),
        other => panic!("unexpected {other:?}"),
    }
    m.retain(a).unwrap();
    assert_eq!(m.refcount(a), Some(2));
    let mut removed = Vec::new();
    assert!(!m.release(a, &mut removed));
    assert!(m.release(a, &mut removed));
    assert_eq!(removed, vec![a]);
    assert_eq!(m.count(), 0);
}

#[test]
fn path_extension_follows_unix_paths() {
    let ext = |p: &str| AssetSource::File(p.to_string()).extension();
    assert_eq!(ext("a/b.PNG"), Some("PNG".to_string()));
    assert_eq!(ext("a.tar.gz"), Some("gz".to_string()));
    assert_eq!(ext("dir.x/noext"), None);
    assert_eq!(ext(".bashrc"), None);
    assert_eq!(ext("a."), Some(String::new()));
    assert_eq!(ext("clip.mp4/"), Some("mp4".to_string()));
    assert_eq!(ext("clip.mp4/."), Some("mp4".to_string()));
    assert_eq!(ext("x/.."), None);
    assert_eq!(ext("/"), None);
    assert_eq!(ext(""), None);
}

#[test]
fn release_drops_cached_images() {
    let mut m = AssetManager::new();
    let a = m.import(AssetSource::Bytes(Arc::new(vec![1, 2, 3])), AssetKind::Image);
    let b = m.import(AssetSource::Bytes(Arc::new(vec![4, 5])), AssetKind::Image);
    m.add_dependency(a, b).unwrap();
    m.release(b, &mut Vec::new());
    let fa = m.cache_image(a, Frame::new(1, 1, PixelFormat::Gray8, vec![7]));
    assert_eq!(fa.data, vec![7]);
    m.cache_image(b, Frame::new(1, 1, PixelFormat::Gray8, vec![8]));
    assert_eq!(m.cached_image(a).unwrap().data, vec![7]);
    let mut removed = Vec::new();
    assert!(m.release(a, &mut removed));
    assert_eq!(sorted(removed), sorted(vec![a, b]));
    assert!(m.cached_image(a).is_none());
    assert!(m.cached_image(b).is_none());
}
