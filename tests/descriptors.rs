use tiny_mapping::mapping::{MappingExt, MappingLoader};
use tiny_mapping::tiny_v2::TinyV2Mapping;

fn table() -> TinyV2Mapping {
    let text = "tiny\t2\t0\tnamed\tintermediary\tofficial
c\tfoo/Bar\tclass_1\ta
c\tbaz/Qux\tclass_2\tb
c\tsame/Name\tclass_3
";
    TinyV2Mapping::load(text.as_bytes()).unwrap()
}

#[test]
fn primitive_descriptors_unchanged() {
    let m = table();
    for d in ["I", "V", "[I", "()V", "(IJZ)D", "[[[B", ""] {
        assert_eq!(m.remap_descriptor(d), d);
        assert_eq!(m.remap_descriptor(&m.remap_descriptor(d)), d);
    }
}

#[test]
fn object_descriptor_remapped() {
    let m = table();
    assert_eq!(m.remap_descriptor("Lfoo/Bar;"), "La;");
    assert_eq!(m.remap_descriptor("Lunknown/Type;"), "Lunknown/Type;");
}

#[test]
fn class_without_official_name_keeps_own_name() {
    let m = table();
    assert_eq!(m.remap_descriptor("Lsame/Name;"), "Lsame/Name;");
}

#[test]
fn nested_array_keeps_two_prefixes() {
    let m = table();
    assert_eq!(m.remap_descriptor("[[Lfoo/Bar;"), "[[La;");
    assert_eq!(m.remap_descriptor("[Lbaz/Qux;"), "[Lb;");
}

#[test]
fn mixed_method_arguments_remapped_in_order() {
    let m = table();
    assert_eq!(
        m.remap_descriptor("(ILfoo/Bar;[JLbaz/Qux;Ljava/lang/String;)Lfoo/Bar;"),
        "(ILa;[JLb;Ljava/lang/String;)La;"
    );
    assert_eq!(m.remap_descriptor("([[Lbaz/Qux;Z)V"), "([[Lb;Z)V");
}

#[test]
fn lone_l_is_left_alone() {
    let m = table();
    assert_eq!(m.remap_descriptor("L"), "L");
}
