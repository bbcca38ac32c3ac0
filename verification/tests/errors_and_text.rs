use ansl::token::{CompileError, MetadataReference, Source, SourceFile};

#[test]
fn compile_error_parts() {
    let e = CompileError::new("boom".to_string());
    assert_eq!(e.error(), "boom");
    assert!(e.formatted().is_none());
    assert_eq!(e.to_display_string(), "Error in compilation: boom\n\t");
    let e = e.attach_metadata(MetadataReference::default());
    assert_eq!(e.to_display_string(), "Error in compilation: boom\n\tat 1:1 in file ");
}

#[test]
fn formatting_an_error_against_its_file() {
    let mut src = Source::new();
    src.add_file(SourceFile::new("", "abc\n"));
    let e = CompileError::new("boom".to_string()).attach_metadata(MetadataReference::default());
    let e = e.fmt_metadata(&src);
    assert_eq!(e.formatted().unwrap(), "abc\n\t\t ^");
    let mut other = Source::new();
    other.add_file(SourceFile::new("", "zzz\n"));
    let again = e.fmt_metadata(&src).fmt_metadata(&other);
    assert_eq!(again.formatted().unwrap(), "abc\n\t\t ^");
    assert_eq!(again.to_display_string(), "Error in compilation: boom\n\tat 1:1 in file :\n\t\t abc\n\t\t ^");
}

#[test]
fn formatting_without_a_place_changes_nothing() {
    let mut src = Source::new();
    src.add_file(SourceFile::new("", "abc\n"));
    let e = CompileError::new("boom".to_string()).fmt_metadata(&src);
    assert!(e.formatted().is_none());
    let far = CompileError::new("x".to_string()).attach_metadata(MetadataReference::default());
    let empty = Source::new();
    assert!(far.fmt_metadata(&empty).formatted().is_none());
}

#[test]
fn metadata_default_and_debug() {
    let m = MetadataReference::default();
    assert_eq!(m.file_name(), "");
    assert_eq!(m.line_number(), 1);
    assert_eq!(m.column(), 1);
    assert_eq!(m.to_debug_string(), "[:1:1]");
    assert_eq!(m.duplicate().to_debug_string(), "[:1:1]");
}
