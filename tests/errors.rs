use tiny_mapping::mapping::{Mapping, MappingError, MappingLoader};
use tiny_mapping::tiny_v2::TinyV2Mapping;

fn load(text: &str) -> Result<TinyV2Mapping, MappingError> {
    TinyV2Mapping::load(text.as_bytes())
}

#[test]
fn invalid_utf8_is_invalid_encoding() {
    let r = TinyV2Mapping::load(&[0x74, 0x69, 0xff, 0x6e]);
    assert_eq!(r.err(), Some(MappingError::InvalidEncoding));
}

#[test]
fn empty_input_is_invalid_header() {
    assert_eq!(load("").err(), Some(MappingError::InvalidHeader));
}

#[test]
fn too_few_header_fields_is_invalid_header() {
    assert_eq!(load("tiny\t2\t0\tnamed\n").err(), Some(MappingError::InvalidHeader));
}

#[test]
fn non_numeric_version_is_invalid_header() {
    assert_eq!(
        load("tiny\tx\t0\tnamed\tintermediary\tofficial\n").err(),
        Some(MappingError::InvalidHeader)
    );
    assert_eq!(
        load("tiny\t2\t-1\tnamed\tintermediary\tofficial\n").err(),
        Some(MappingError::InvalidHeader)
    );
}

#[test]
fn missing_named_namespace() {
    assert_eq!(
        load("tiny\t2\t0\tintermediary\tofficial\n").err(),
        Some(MappingError::MissingNamespace("named".to_string()))
    );
}

#[test]
fn missing_intermediary_namespace() {
    assert_eq!(
        load("tiny\t2\t0\tnamed\tofficial\n").err(),
        Some(MappingError::MissingNamespace("intermediary".to_string()))
    );
}

#[test]
fn class_record_without_named_column() {
    let text = "tiny\t2\t0\tofficial\tintermediary\tnamed\nc\ta\tclass_1\n";
    assert_eq!(load(text).err(), Some(MappingError::MissingClassName));
}

#[test]
fn member_record_without_named_column() {
    let text = "tiny\t2\t0\tofficial\tintermediary\tnamed\nc\ta\tclass_1\tfoo/Bar\n\tm\t()V\tb\tmethod_1\n";
    assert_eq!(load(text).err(), Some(MappingError::MissingFieldOrMethodName));
}

#[test]
fn member_record_without_descriptor() {
    let text = "tiny\t2\t0\tnamed\tintermediary\tofficial\nc\tfoo/Bar\tclass_1\ta\n\tf\n";
    assert_eq!(load(text).err(), Some(MappingError::MissingFieldOrMethodName));
}

#[test]
fn unknown_subsection_type() {
    let text = "tiny\t2\t0\tnamed\tintermediary\tofficial\nc\tfoo/Bar\tclass_1\ta\n\tp\t0\t\tx\n";
    assert_eq!(load(text).err(), Some(MappingError::UnknownSubsectionType));
}

#[test]
fn unknown_subsection_without_class_is_ignored() {
    let text = "tiny\t2\t0\tnamed\tintermediary\tofficial\n\tp\t0\t\tx\nc\tfoo/Bar\tclass_1\ta\n";
    let m = load(text).unwrap();
    assert_eq!(m.remap_class("foo/Bar"), "a");
}

#[test]
fn error_aborts_whole_load() {
    let text = "tiny\t2\t0\tnamed\tintermediary\tofficial\nc\tfoo/Bar\tclass_1\ta\nc\n";
    assert_eq!(load(text).err(), Some(MappingError::MissingClassName));
}
