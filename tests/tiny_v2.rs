use tiny_mapping::mapping::{Mapping, MappingError, MappingExt, MappingLoader};
use tiny_mapping::parse_tiny_v2;
use tiny_mapping::tiny_v2::{parse_header, ClassMapping, TinyV2Mapping};

const MAPPINGS: &str = "tiny\t2\t0\tintermediary\tnamed\tofficial
# classes that the descriptors below refer to come first
c\tnet/minecraft/class_329\tnet/minecraft/client/gui/hud/InGameHud\tewv
c\tnet/minecraft/class_2394\tnet/minecraft/particle/ParticleEffect\tie
c\tnet/minecraft/class_310\tnet/minecraft/client/MinecraftClient\tevi
\tm\t()Ljava/lang/String;\tmethod_24287\tgetWindowTitle\tbe
\tf\tLnet/minecraft/client/gui/hud/InGameHud;\tfield_1705\tinGameHud\tl
\tc\tThe in-game HUD.
c\tnet/minecraft/class_638\tnet/minecraft/client/world/ClientWorld\tfew
\tm\t(DDDDDLnet/minecraft/particle/ParticleEffect;)V\tmethod_2883\taddParticle\ta
";

fn get_mapping() -> TinyV2Mapping {
    TinyV2Mapping::load(MAPPINGS.as_bytes()).unwrap()
}

#[test]
fn test_class_remap() {
    let mapping = get_mapping();
    assert_eq!(mapping.remap_class("net/minecraft/client/MinecraftClient"), "evi");
}

#[test]
fn test_method_remap() {
    let mapping = get_mapping();
    assert_eq!(
        mapping.remap_method("net/minecraft/client/MinecraftClient", "getWindowTitle", "()Ljava/lang/String;"),
        "be"
    );
}

#[test]
fn test_method_remap_2() {
    let mapping = get_mapping();
    assert_eq!(
        mapping.remap_method(
            "net/minecraft/client/world/ClientWorld",
            "addParticle",
            "(DDDDDLnet/minecraft/particle/ParticleEffect;)V"
        ),
        "a"
    );
}

#[test]
fn test_field_remap() {
    let mapping = get_mapping();
    assert_eq!(
        mapping.remap_field(
            "net/minecraft/client/MinecraftClient",
            "inGameHud",
            "Lnet/minecraft/client/gui/hud/InGameHud;"
        ),
        "l"
    );
}

#[test]
fn header_keeps_column_order_and_versions() {
    let header = parse_header("tiny\t2\t0\tofficial\tnamed\tintermediary\textra").unwrap();
    assert_eq!(header.major_version, 2);
    assert_eq!(header.minor_version, 0);
    assert_eq!(header.namespaces, vec!["official", "named", "intermediary", "extra"]);
}

#[test]
fn misspelled_namespace_is_missing() {
    let r = TinyV2Mapping::load(b"tiny\t2\t0\tnamed\tintermediary\toficial\n");
    assert_eq!(r.err(), Some(MappingError::MissingNamespace("official".to_string())));
}

#[test]
fn wrong_marker_is_invalid_header() {
    let r = parse_tiny_v2(b"notTiny\t2\t0\tnamed\tofficial\n");
    assert_eq!(r.err(), Some(MappingError::InvalidHeader));
}

#[test]
fn class_record_end_to_end() {
    let m = TinyV2Mapping::load(b"tiny\t2\t0\tnamed\tintermediary\tofficial\nc\tfoo/Bar\tim/Bar\ta\n").unwrap();
    assert_eq!(m.remap_class("foo/Bar"), "a");
    assert_eq!(m.remap_class("unknown/Class"), "unknown/Class");
}

#[test]
fn member_record_end_to_end() {
    let text = "tiny\t2\t0\tnamed\tintermediary\tofficial\nc\tfoo/Bar\tim/Bar\ta\n\tm\t()Lfoo/Bar;\tdoStuff\tim_doStuff\tb\n";
    let m = TinyV2Mapping::load(text.as_bytes()).unwrap();
    assert_eq!(m.remap_descriptor("()Lfoo/Bar;"), "()La;");
    assert_eq!(m.remap_method("foo/Bar", "doStuff", "()Lfoo/Bar;"), "b");
}

#[test]
fn header_accepts_plus_sign_and_rejects_overflow() {
    let h = parse_header("tiny\t+2\t007\tnamed\tofficial").unwrap();
    assert_eq!(h.major_version(), 2);
    assert_eq!(h.minor_version(), 7);
    assert!(parse_header("tiny\t99999999999999999999999\t0\tnamed\tofficial").is_none());
    assert!(parse_header("tiny\t+\t0\tnamed\tofficial").is_none());
    assert!(parse_header("tiny\t2\t0\tnamed").is_none());
    assert!(parse_header("").is_none());
}

#[test]
fn header_getter_after_load() {
    let m = TinyV2Mapping::load(b"tiny\t2\t1\tofficial\tintermediary\tnamed\textra\n").unwrap();
    assert_eq!(m.header().major_version(), 2);
    assert_eq!(m.header().minor_version(), 1);
    assert_eq!(m.header().namespaces(), &vec!["official", "intermediary", "named", "extra"]);
    assert!(m.classes().is_empty());
}

#[test]
fn columns_follow_header_order() {
    let text = "tiny\t2\t0\tofficial\tnamed\tintermediary\nc\ta\tfoo/Bar\tclass_1\n\tf\tI\tb\tcount\tfield_1\n";
    let m = TinyV2Mapping::load(text.as_bytes()).unwrap();
    assert_eq!(m.remap_class("foo/Bar"), "a");
    assert_eq!(m.remap_field("foo/Bar", "count", "I"), "b");
    let (name, class) = &m.classes()[0];
    assert_eq!(name, "foo/Bar");
    assert_eq!(class.official_name(), &Some("a".to_string()));
    assert_eq!(class.intermediary_name(), &Some("class_1".to_string()));
    let (key, field) = &class.fields()[0];
    assert_eq!(key, &("count".to_string(), "I".to_string()));
    assert_eq!(field.official_name(), &Some("b".to_string()));
    assert_eq!(field.intermediary_name(), &Some("field_1".to_string()));
}

#[test]
fn comments_blank_lines_and_crlf() {
    let text = "tiny\t2\t0\tnamed\tintermediary\tofficial\r\n# a comment\r\n\r\nc\tfoo/Bar\tclass_1\ta\r\n\tc\tdocs\r\n\tm\t()V\trun\tmethod_1\tb\r\n";
    let m = TinyV2Mapping::load(text.as_bytes()).unwrap();
    assert_eq!(m.header().namespaces(), &vec!["named", "intermediary", "official"]);
    assert_eq!(m.remap_class("foo/Bar"), "a");
    assert_eq!(m.remap_method("foo/Bar", "run", "()V"), "b");
}

#[test]
fn members_before_any_class_are_ignored() {
    let text = "tiny\t2\t0\tnamed\tintermediary\tofficial\n\tm\t()V\trun\tmethod_1\tb\nc\tfoo/Bar\tclass_1\ta\n";
    let m = TinyV2Mapping::load(text.as_bytes()).unwrap();
    assert_eq!(m.remap_method("foo/Bar", "run", "()V"), "run");
}

#[test]
fn redeclared_class_replaces_earlier_one() {
    let text = "tiny\t2\t0\tnamed\tintermediary\tofficial
c\tfoo/Bar\tclass_1\ta
\tm\t()V\trun\tmethod_1\tb
c\tfoo/Bar\tclass_1\tz
";
    let m = TinyV2Mapping::load(text.as_bytes()).unwrap();
    assert_eq!(m.remap_class("foo/Bar"), "z");
    assert_eq!(m.remap_method("foo/Bar", "run", "()V"), "run");
    assert_eq!(m.classes().len(), 1);
}

#[test]
fn redeclared_member_replaces_earlier_one() {
    let text = "tiny\t2\t0\tnamed\tintermediary\tofficial
c\tfoo/Bar\tclass_1\ta
\tm\t()V\trun\tmethod_1\tb
\tm\t()V\trun\tmethod_1\tc
";
    let m = TinyV2Mapping::load(text.as_bytes()).unwrap();
    assert_eq!(m.remap_method("foo/Bar", "run", "()V"), "c");
    assert_eq!(m.classes()[0].1.methods().len(), 1);
}

#[test]
fn missing_official_names_fall_back() {
    let text = "tiny\t2\t0\tnamed\tintermediary\tofficial\nc\tfoo/Bar\tclass_1\n\tm\t()V\trun\tmethod_1\n\tf\tI\tcount\n";
    let m = TinyV2Mapping::load(text.as_bytes()).unwrap();
    assert_eq!(m.remap_class("foo/Bar"), "foo/Bar");
    assert_eq!(m.remap_method("foo/Bar", "run", "()V"), "run");
    assert_eq!(m.remap_field("foo/Bar", "count", "I"), "count");
    assert_eq!(m.remap_method("foo/Bar", "walk", "()V"), "walk");
    assert_eq!(m.remap_field("other/Class", "count", "I"), "count");
}

#[test]
fn descriptor_key_uses_classes_known_at_that_point() {
    let text = "tiny\t2\t0\tnamed\tintermediary\tofficial
c\tfoo/Bar\tclass_1\ta
\tm\t(Lbaz/Qux;)V\tuse\tmethod_1\tb
c\tbaz/Qux\tclass_2\tq
";
    let m = TinyV2Mapping::load(text.as_bytes()).unwrap();
    // the key was resolved before baz/Qux was known, so a query that
    // resolves it now no longer matches
    assert_eq!(m.remap_method("foo/Bar", "use", "(Lbaz/Qux;)V"), "use");
    let (_, class) = &m.classes()[0];
    assert_eq!(class.methods()[0].0.1, "(Lbaz/Qux;)V");
}

#[test]
fn non_ascii_names_survive_decoding() {
    let text = "tiny\t2\t0\tnamed\tintermediary\tofficial\nc\tpkg/Bär\tclass_1\tä\n";
    let m = TinyV2Mapping::load(text.as_bytes()).unwrap();
    assert_eq!(m.remap_class("pkg/Bär"), "ä");
    assert_eq!(m.remap_class("pkg/Bar"), "pkg/Bar");
}

#[test]
fn parse_tiny_v2_matches_load() {
    let text = b"tiny\t2\t0\tnamed\tintermediary\tofficial\nc\tfoo/Bar\tclass_1\ta\n";
    let m = parse_tiny_v2(text).unwrap();
    assert_eq!(m.remap_class("foo/Bar"), "a");
}

#[test]
fn default_class_mapping_is_empty() {
    let c = ClassMapping::default();
    assert_eq!(c.official_name(), &None);
    assert!(c.methods().is_empty() && c.fields().is_empty());
}
