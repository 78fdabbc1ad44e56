//! Tests for the image index document and its nested structures.

use oci_spec::image::{
    Arch, Descriptor, DescriptorBuilder, ImageIndex, ImageIndexBuilder, MediaType, Os, Platform,
    PlatformBuilder, SCHEMA_VERSION,
};

fn create_index() -> ImageIndex {
    let ppc_manifest = DescriptorBuilder::default()
        .media_type(MediaType::ImageManifest)
        .digest("sha256:e692418e4cbaf90ca69d05a66403747baa33ee08806650b51fab815ad7fc331f")
        .size(7143)
        .platform(
            PlatformBuilder::default()
                .architecture(Arch::PowerPC64le)
                .os(Os::Linux)
                .build()
                .expect("build ppc64le platform"),
        )
        .build()
        .expect("build ppc manifest descriptor");

    let amd64_manifest = DescriptorBuilder::default()
        .media_type(MediaType::ImageManifest)
        .digest("sha256:5b0bcabd1ed22e9fb1310cf6c2dec7cdef19f0ad69efa1f392e94a4333501270")
        .size(7682)
        .platform(
            PlatformBuilder::default()
                .architecture(Arch::Amd64)
                .os(Os::Linux)
                .build()
                .expect("build amd64 platform"),
        )
        .build()
        .expect("build amd64 manifest descriptor");

    ImageIndexBuilder::default()
        .schema_version(SCHEMA_VERSION)
        .manifests(vec![ppc_manifest, amd64_manifest])
        .build()
        .expect("build image index")
}

fn index_pretty_text() -> String {
    let mut t = String::new();
    t.push_str("{\n");
    t.push_str("  \"schemaVersion\": 2,\n");
    t.push_str("  \"manifests\": [\n");
    t.push_str("    {\n");
    t.push_str("      \"mediaType\": \"application/vnd.oci.image.manifest.v1+json\",\n");
    t.push_str(
        "      \"digest\": \"sha256:e692418e4cbaf90ca69d05a66403747baa33ee08806650b51fab815ad7fc331f\",\n",
    );
    t.push_str("      \"size\": 7143,\n");
    t.push_str("      \"platform\": {\n");
    t.push_str("        \"architecture\": \"ppc64le\",\n");
    t.push_str("        \"os\": \"linux\"\n");
    t.push_str("      }\n");
    t.push_str("    },\n");
    t.push_str("    {\n");
    t.push_str("      \"mediaType\": \"application/vnd.oci.image.manifest.v1+json\",\n");
    t.push_str(
        "      \"digest\": \"sha256:5b0bcabd1ed22e9fb1310cf6c2dec7cdef19f0ad69efa1f392e94a4333501270\",\n",
    );
    t.push_str("      \"size\": 7682,\n");
    t.push_str("      \"platform\": {\n");
    t.push_str("        \"architecture\": \"amd64\",\n");
    t.push_str("        \"os\": \"linux\"\n");
    t.push_str("      }\n");
    t.push_str("    }\n");
    t.push_str("  ]\n");
    t.push_str("}\n");
    t
}

#[test]
fn load_index_from_text() {
    let actual = ImageIndex::from_reader(&index_pretty_text()).expect("from reader");
    let expected = create_index();
    assert_eq!(actual, expected);
}

#[test]
fn save_index_to_writer() {
    let mut actual = String::new();
    let index = create_index();
    index.to_writer_pretty(&mut actual).expect("to writer");
    assert_eq!(actual, index_pretty_text());
}

#[test]
fn index_end_to_end() {
    // loading the document and re-saving it in pretty mode reproduces the
    // original text exactly
    let text = index_pretty_text();
    let index = ImageIndex::from_reader(&text).expect("load index");
    assert_eq!(index.encode(true), text);
    // compact mode strips only insignificant whitespace
    let compact = index.encode(false);
    assert!(!compact.contains('\n'));
    assert_eq!(
        compact,
        text.replace("\n", "").replace("  ", "").replace("\": ", "\":")
    );
    assert_eq!(ImageIndex::from_reader(&compact).expect("reload"), index);
}

#[test]
fn index_round_trip() {
    let mut index = create_index();
    index.media_type = Some(MediaType::ImageIndex);
    index.annotations = Some(vec![("a".to_string(), "1".to_string())]);
    let compact = index.encode(false);
    let pretty = index.encode(true);
    assert_eq!(ImageIndex::from_reader(&compact).unwrap(), index);
    assert_eq!(ImageIndex::from_reader(&pretty).unwrap(), index);
    assert_eq!(ImageIndex::from_reader(&compact).unwrap().encode(false), compact);
    assert_eq!(ImageIndex::from_reader(&pretty).unwrap().encode(true), pretty);
}

#[test]
fn index_omission() {
    // no optional field set: neither mediaType nor annotations is emitted
    let index = create_index();
    let compact = index.encode(false);
    assert!(compact.starts_with("{\"schemaVersion\":2,\"manifests\":["));
    assert!(!compact.contains("annotations"));
    let empty = ImageIndex::default();
    assert_eq!(empty.encode(false), "{\"schemaVersion\":2,\"manifests\":[]}");
}

#[test]
fn index_default() {
    let index = ImageIndex::default();
    assert_eq!(index.schema_version, SCHEMA_VERSION);
    assert!(index.media_type.is_none());
    assert!(index.manifests.is_empty());
    assert!(index.annotations.is_none());
}

#[test]
fn index_requires_schema_version_and_manifests() {
    assert!(ImageIndex::from_reader("{\"manifests\":[]}").is_err());
    assert!(ImageIndex::from_reader("{\"schemaVersion\":2}").is_err());
    assert!(ImageIndex::from_reader("{}").is_err());
    assert!(ImageIndexBuilder::default().manifests(vec![]).build().is_err());
    assert!(ImageIndexBuilder::default().schema_version(2).build().is_err());
}

#[test]
fn index_ignores_unknown_fields() {
    let text = "{\"schemaVersion\":2,\"future\":[{\"deep\":true}],\"manifests\":[]}";
    let index = ImageIndex::from_reader(text).expect("decode");
    assert_eq!(index.schema_version, 2);
    assert!(index.manifests.is_empty());
}

#[test]
fn unknown_architecture_round_trips() {
    let platform = PlatformBuilder::default()
        .architecture(Arch::Other("z80".to_string()))
        .os(Os::Other("cpm".to_string()))
        .build()
        .unwrap();
    let text = platform.encode(false);
    assert_eq!(text, "{\"architecture\":\"z80\",\"os\":\"cpm\"}");
    let back = Platform::decode(&text).unwrap();
    assert_eq!(back, platform);
}

#[test]
fn platform_round_trip() {
    let platform = PlatformBuilder::default()
        .architecture(Arch::Arm64)
        .os(Os::Linux)
        .os_version("6.1")
        .os_features(vec!["sve".to_string()])
        .variant("v8")
        .build()
        .unwrap();
    let compact = platform.encode(false);
    assert_eq!(
        compact,
        "{\"architecture\":\"arm64\",\"os\":\"linux\",\"os.version\":\"6.1\",\
         \"os.features\":[\"sve\"],\"variant\":\"v8\"}"
    );
    assert_eq!(Platform::decode(&compact).unwrap(), platform);
    let pretty = platform.encode(true);
    assert_eq!(Platform::decode(&pretty).unwrap(), platform);
}

#[test]
fn descriptor_round_trip() {
    let descriptor = DescriptorBuilder::default()
        .media_type(MediaType::ImageLayerGzip)
        .digest("sha256:0000000000000000000000000000000000000000000000000000000000000000")
        .size(0)
        .urls(vec!["https://mirror.example/blob".to_string()])
        .annotations(vec![("org.example.note".to_string(), "x".to_string())])
        .build()
        .unwrap();
    let compact = descriptor.encode(false);
    let pretty = descriptor.encode(true);
    assert_eq!(Descriptor::decode(&compact).unwrap(), descriptor);
    assert_eq!(Descriptor::decode(&pretty).unwrap(), descriptor);
    assert_eq!(Descriptor::decode(&compact).unwrap().encode(false), compact);
    assert_eq!(Descriptor::decode(&pretty).unwrap().encode(true), pretty);
}

#[test]
fn descriptor_builder_requires_fields() {
    assert!(DescriptorBuilder::default().build().is_err());
    assert!(DescriptorBuilder::default().digest("d").size(1).build().is_err());
    assert!(DescriptorBuilder::default()
        .media_type(MediaType::ImageManifest)
        .size(1)
        .build()
        .is_err());
    assert!(DescriptorBuilder::default()
        .media_type(MediaType::ImageManifest)
        .digest("d")
        .build()
        .is_err());
}

#[test]
fn platform_builder_requires_fields() {
    assert!(PlatformBuilder::default().build().is_err());
    assert!(PlatformBuilder::default().os(Os::Linux).build().is_err());
    assert!(PlatformBuilder::default().architecture(Arch::Amd64).build().is_err());
}

#[test]
fn negative_and_large_sizes() {
    let d = DescriptorBuilder::default()
        .media_type(MediaType::ImageLayer)
        .digest("sha256:aa")
        .size(-12)
        .build()
        .unwrap();
    let text = d.encode(false);
    assert!(text.contains("\"size\":-12"));
    assert_eq!(Descriptor::decode(&text).unwrap(), d);
    let big = DescriptorBuilder::default()
        .media_type(MediaType::ImageLayer)
        .digest("sha256:aa")
        .size(i64::MAX)
        .build()
        .unwrap();
    assert_eq!(Descriptor::decode(&big.encode(false)).unwrap(), big);
    // a number outside the signed 64-bit range refuses to decode
    assert!(Descriptor::decode(
        "{\"mediaType\":\"m\",\"digest\":\"d\",\"size\":9223372036854775808}"
    )
    .is_err());
}
