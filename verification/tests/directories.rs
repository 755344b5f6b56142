use msi_reader::directory::MsiDirectoryName;

#[test]
fn field_without_colon_is_all_target() {
    for raw in ["TARGETDIR", "", "a|b", ".", "Program Files", "日本語|é"] {
        let dir = MsiDirectoryName::from(raw);
        assert_eq!(dir.source().is_none(), true);
        assert_eq!(dir.target().combined(), raw);
    }
}

#[test]
fn field_splits_at_first_colon() {
    let dir = MsiDirectoryName::from("SRCDIR|SourceDir:TGTDIR|TargetDir");
    assert_eq!(dir.source().unwrap().combined(), "SRCDIR|SourceDir");
    assert_eq!(dir.target().combined(), "TGTDIR|TargetDir");
}

#[test]
fn field_splits_at_every_position() {
    for (raw, source, target) in [
        (":abc", "", "abc"),
        ("a:bc", "a", "bc"),
        ("ab:c", "ab", "c"),
        ("abc:", "abc", ""),
        (":", "", ""),
    ] {
        let dir = MsiDirectoryName::from(raw);
        assert_eq!(dir.source().unwrap().combined(), source);
        assert_eq!(dir.target().combined(), target);
    }

    let raw = "日本:é😀";
    let at = raw.find(':').unwrap();
    let dir = MsiDirectoryName::from(raw);
    assert_eq!(dir.source().unwrap().combined(), &raw[0..at]);
    assert_eq!(dir.target().combined(), &raw[at + 1..]);
}

#[test]
fn field_keeps_later_colons_in_target() {
    let dir = MsiDirectoryName::from("a:b:c");
    assert_eq!(dir.source().unwrap().combined(), "a");
    assert_eq!(dir.target().combined(), "b:c");
    assert_eq!(dir.target().long(), "b:c");

    let dir = MsiDirectoryName::from("s|S:t|T:u|U");
    let source = dir.source().unwrap();
    let target = dir.target();
    assert_eq!(source.short(), Some("s"));
    assert_eq!(source.long(), "S");
    assert_eq!(target.short(), Some("t"));
    assert_eq!(target.long(), "T:u|U");
}

#[test]
fn bar_before_colon_belongs_to_source() {
    let dir = MsiDirectoryName::from("a|b:c");
    assert_eq!(dir.source().unwrap().short(), Some("a"));
    assert_eq!(dir.source().unwrap().long(), "b");
    assert_eq!(dir.target().short(), None);
    assert_eq!(dir.target().long(), "c");
}

#[test]
fn dot_source_and_plain_target() {
    let dir = MsiDirectoryName::from(".:Alpha");
    let source = dir.source().unwrap();
    let target = dir.target();
    assert_eq!(source.long(), ".");
    assert_eq!(source.short(), None);
    assert_eq!(source.is_located_at_parent(), true);
    assert_eq!(target.long(), "Alpha");
    assert_eq!(target.short(), None);
    assert_eq!(target.is_located_at_parent(), false);
}

#[test]
fn dot_source_and_two_form_target() {
    let dir = MsiDirectoryName::from(".:PROGRA~1|Program Files (x86)");
    let source = dir.source().unwrap();
    let target = dir.target();
    assert_eq!(source.long(), ".");
    assert_eq!(source.is_located_at_parent(), true);
    assert_eq!(target.short(), Some("PROGRA~1"));
    assert_eq!(target.long(), "Program Files (x86)");
    assert_eq!(target.is_located_at_parent(), false);
}

#[test]
fn two_form_source_and_plain_target() {
    let dir = MsiDirectoryName::from("SRCDIR|SourceDir:Alpha");
    let source = dir.source().unwrap();
    let target = dir.target();
    assert_eq!(source.short(), Some("SRCDIR"));
    assert_eq!(source.long(), "SourceDir");
    assert_eq!(source.is_located_at_parent(), false);
    assert_eq!(target.long(), "Alpha");
    assert_eq!(target.short(), None);
}

#[test]
fn target_alone() {
    let dir = MsiDirectoryName::from("TARGETDIR");
    assert_eq!(dir.source().is_none(), true);
    let target = dir.target();
    assert_eq!(target.long(), "TARGETDIR");
    assert_eq!(target.short(), None);
    assert_eq!(target.is_located_at_parent(), false);
}

#[test]
fn empty_field() {
    let dir = MsiDirectoryName::from("");
    assert_eq!(dir.source().is_none(), true);
    let target = dir.target();
    assert_eq!(target.long(), "");
    assert_eq!(target.short(), None);
    assert_eq!(target.is_located_at_parent(), false);
    assert_eq!(dir.combined(), "");
    assert_eq!(dir.display(), "");
}

#[test]
fn field_of_separators_only() {
    let dir = MsiDirectoryName::from("|:|");
    let source = dir.source().unwrap();
    let target = dir.target();
    assert_eq!(source.combined(), "|");
    assert_eq!(source.short(), Some(""));
    assert_eq!(source.long(), "");
    assert_eq!(target.combined(), "|");
    assert_eq!(target.short(), Some(""));
    assert_eq!(target.long(), "");

    let dir = MsiDirectoryName::from("::");
    assert_eq!(dir.source().unwrap().combined(), "");
    assert_eq!(dir.target().combined(), ":");
}

#[test]
fn directory_combined_is_the_input() {
    for raw in ["", ":", ".:Alpha", "SRCDIR|SourceDir:Alpha", "TARGETDIR", "a:b:c", "é:ü"] {
        let dir = MsiDirectoryName::from(raw);
        assert_eq!(dir.combined(), raw);
        let _ = dir.source();
        let _ = dir.target();
        let _ = dir.target().long();
        let _ = dir.source();
        let _ = dir.display();
        assert_eq!(dir.combined(), raw);
        assert_eq!(dir.combined().as_ptr(), raw.as_ptr());
        assert_eq!(dir.debug(), raw);
    }
}

#[test]
fn directory_parts_are_slices_of_the_input() {
    let raw = String::from("SRCDIR|SourceDir:Alpha");
    let dir = MsiDirectoryName::from(raw.as_str());
    let source = dir.source().unwrap();
    let target = dir.target();
    assert_eq!(source.combined().as_ptr(), raw.as_ptr());
    assert_eq!(target.combined().as_ptr(), raw[17..].as_ptr());
    assert_eq!(format!("{}:{}", source.combined(), target.combined()), raw);
}

#[test]
fn directory_display_with_and_without_source() {
    assert_eq!(MsiDirectoryName::from("TARGETDIR").display(), "TARGETDIR");
    assert_eq!(MsiDirectoryName::from(".:Alpha").display(), "source = [.], target = [Alpha]");
    assert_eq!(
        MsiDirectoryName::from(".:PROGRA~1|Program Files (x86)").display(),
        "source = [.], target = [short = PROGRA~1, long = Program Files (x86)]"
    );
    assert_eq!(
        MsiDirectoryName::from("SRCDIR|SourceDir:Alpha").display(),
        "source = [short = SRCDIR, long = SourceDir], target = [Alpha]"
    );
    assert_eq!(
        MsiDirectoryName::from("PROGRA~1|Program Files (x86)").display(),
        "short = PROGRA~1, long = Program Files (x86)"
    );
    assert_eq!(MsiDirectoryName::from(":").display(), "source = [], target = []");
    assert_eq!(MsiDirectoryName::from("a:b:c").display(), "source = [a], target = [b:c]");
}

#[test]
fn directory_debug_is_raw() {
    assert_eq!(MsiDirectoryName::from("SRCDIR|SourceDir:Alpha").debug(), "SRCDIR|SourceDir:Alpha");
    assert_eq!(MsiDirectoryName::from("TARGETDIR").debug(), "TARGETDIR");
}
