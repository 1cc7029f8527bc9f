use clankerdiff_core::patch::{git_patch_from_texts, PatchError};

#[test]
fn no_patch_for_identical_snapshots() -> Result<(), PatchError> {
    for text in [None, Some(""), Some("same\n"), Some("same")] {
        assert_eq!(git_patch_from_texts("file.txt", text, text)?, None);
    }
    Ok(())
}

#[test]
fn file_existence_controls_git_headers() -> Result<(), PatchError> {
    for (old, new, header) in [
        (None, Some(""), "new file mode 100644\n"),
        (Some(""), None, "deleted file mode 100644\n"),
    ] {
        let patch = git_patch_from_texts("file.txt", old, new)?.expect("changed content");
        assert!(patch.contains(header));
        assert!(!patch.contains("@@"));
    }
    for (old, new) in [("", "text\n"), ("text\n", "")] {
        let patch = git_patch_from_texts("file.txt", Some(old), Some(new))?.expect("changed content");
        assert!(!patch.contains("file mode"));
        assert!(!patch.contains("/dev/null"));
    }
    Ok(())
}

#[test]
fn distant_edits_have_compact_contextual_hunks() -> Result<(), PatchError> {
    let mut old = String::new();
    for line in 0..1000 {
        old.extend(["line ", &line.to_string(), "\n"]);
    }
    let new = old.replace("line 10\n", "changed 10\n").replace("line 990\n", "changed 990\n");
    let patch = git_patch_from_texts("file.txt", Some(&old), Some(&new))?.expect("changed content");
    assert_eq!(patch.lines().filter(|line| line.starts_with("@@")).count(), 2);
    assert!(patch.contains(" line 9\n"));
    assert!(patch.contains("-line 10\n+changed 10\n"));
    assert!(!patch.contains("line 500\n"));
    assert!(patch.lines().count() < 30);
    Ok(())
}

#[test]
fn eof_outside_changed_hunks_is_preserved() -> Result<(), PatchError> {
    let old = format!("old\n{}last", "context\n".repeat(20));
    let new = old.replacen("old", "new", 1);
    let patch = git_patch_from_texts("file.txt", Some(&old), Some(&new))?.expect("changed content");
    assert!(!patch.contains("No newline"));
    Ok(())
}

#[test]
fn rejects_invalid_paths_and_binary_text() {
    for path in ["", "bad\0path", "/dev/null"] {
        assert!(matches!(git_patch_from_texts(path, None, Some("new")), Err(PatchError::InvalidPath)));
    }
    for (old, new) in [(Some("old\0"), Some("new")), (None, Some("new\0"))] {
        assert!(matches!(git_patch_from_texts("file.txt", old, new), Err(PatchError::BinaryText)));
    }
}

#[test]
fn paths_are_quoted_byte_by_byte() {
    let patch = git_patch_from_texts("quote\"back\\tab\t\u{96ea}.txt", Some("a\n"), Some("b\n"))
        .unwrap()
        .unwrap();
    assert!(patch.starts_with(
        "diff --git \"quote\\\"back\\\\tab\\011\\351\\233\\252.txt\" \"quote\\\"back\\\\tab\\011\\351\\233\\252.txt\"\n--- \""
    ));
    assert!(patch.contains("@@ -1 +1 @@\n-a\n+b\n"));
}

#[test]
fn created_files_diff_against_dev_null() {
    let patch = git_patch_from_texts("n.txt", None, Some("x\n")).unwrap().unwrap();
    assert_eq!(
        patch,
        "diff --git \"n.txt\" \"n.txt\"\nnew file mode 100644\n--- /dev/null\n+++ \"n.txt\"\n@@ -0,0 +1 @@\n+x\n"
    );
    assert_eq!(PatchError::BinaryText.message(), "text patches cannot contain NUL bytes");
}
