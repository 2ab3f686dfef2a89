use imitare::fake_file::{Extension, FakeFile};
use rand::rngs::StdRng;
use rand::SeedableRng;

#[test]
fn test_header_nonempty_except_txt() {
    assert!(!Extension::Zip.header().is_empty());
    assert!(!Extension::Pdf.header().is_empty());
    assert!(!Extension::Doc.header().is_empty());
    assert!(Extension::Txt.header().is_empty());

    // Headers are constant: two calls yield byte-identical sequences.
    assert_eq!(Extension::Zip.header(), Extension::Zip.header());
    assert_eq!(Extension::Pdf.header(), Extension::Pdf.header());
    assert_eq!(Extension::Doc.header(), Extension::Doc.header());
    assert_eq!(Extension::Txt.header(), Extension::Txt.header());
}

#[test]
fn test_header_exact_lengths() {
    assert_eq!(Extension::Zip.header().len(), 30);
    assert_eq!(Extension::Pdf.header().len(), 13);
    assert_eq!(Extension::Doc.header().len(), 8);
    assert_eq!(Extension::Txt.header().len(), 0);
}

#[test]
fn test_infer_case_insensitive() {
    assert_eq!(
        FakeFile::infer_type_from_filename("report.PDF"),
        Extension::Pdf
    );
    assert_eq!(
        FakeFile::infer_type_from_filename("archive.ZiP"),
        Extension::Zip
    );
    assert_eq!(
        FakeFile::infer_type_from_filename("letter.DoC"),
        Extension::Doc
    );
    assert_eq!(
        FakeFile::infer_type_from_filename("notes.TXT"),
        Extension::Txt
    );
}

#[test]
fn test_infer_with_paths_and_dotfiles() {
    // Inference reads the text after the last dot of the whole filename.
    // A dot inside a directory part leaves a token with a '/', which never
    // parses, so such paths fall back to Txt.
    assert_eq!(
        FakeFile::infer_type_from_filename("dir.zip/file.pdf"),
        Extension::Pdf
    );
    assert_eq!(
        FakeFile::infer_type_from_filename("a.zip/c"),
        Extension::Txt
    );
    // In a dotfile the text after the last dot is still a token.
    assert_eq!(FakeFile::infer_type_from_filename(".zip"), Extension::Zip);
    assert_eq!(
        FakeFile::infer_type_from_filename(".hidden"),
        Extension::Txt
    );
}

#[test]
fn test_from_token_case_insensitive() {
    assert_eq!(Extension::from_token("ZIP").unwrap(), Extension::Zip);
    assert_eq!(Extension::from_token("Pdf").unwrap(), Extension::Pdf);
    assert!(Extension::from_token("").is_none());
    assert!(Extension::from_token("pdfx").is_none());
    assert!(Extension::from_token("pd").is_none());
}

#[test]
fn test_name_round_trip() {
    for e in [
        Extension::Zip,
        Extension::Pdf,
        Extension::Doc,
        Extension::Txt,
    ] {
        assert_eq!(Extension::from_token(e.name()).unwrap(), e);
    }
}

#[test]
fn test_buffer_len_is_max_of_size_and_header_len() {
    let mut rng = StdRng::seed_from_u64(7);

    // Requested size below the PDF header's 13 bytes: grows to 13.
    let small = FakeFile::new(String::from("a.pdf"), 5, Extension::Pdf);
    assert_eq!(small.create_buffer(&mut rng).len(), 13);

    // Requested size exactly the header length.
    let exact = FakeFile::new(String::from("a.pdf"), 13, Extension::Pdf);
    assert_eq!(exact.create_buffer(&mut rng).len(), 13);

    // Requested size one above the header length.
    let above = FakeFile::new(String::from("a.pdf"), 14, Extension::Pdf);
    assert_eq!(above.create_buffer(&mut rng).len(), 14);

    // Txt has no header, so a zero-size request yields an empty buffer.
    let empty = FakeFile::new(String::from("a.txt"), 0, Extension::Txt);
    assert_eq!(empty.create_buffer(&mut rng).len(), 0);
}

#[test]
fn test_output_filename_edge_cases() {
    // A trailing dot: the empty token is not an extension worth keeping.
    let trailing = FakeFile::new(String::from("archive."), 10, Extension::Doc);
    assert_eq!(trailing.output_filename(), String::from("archive.doc"));

    // Only the last dot counts.
    let dotted = FakeFile::new(String::from("a.b.c"), 10, Extension::Zip);
    assert_eq!(dotted.output_filename(), String::from("a.b.zip"));

    // The stored filename itself stays as supplied; only the output name
    // carries the canonical extension.
    let renamed = FakeFile::new(String::from("data.old"), 10, Extension::Pdf);
    assert_eq!(renamed.filename, String::from("data.old"));
    assert_eq!(renamed.output_filename(), String::from("data.pdf"));
}

#[test]
fn test_output_filename_keeps_directory_part() {
    // The extension separator is looked for in the final path component
    // only: a dot inside a directory name never counts.
    let nested = FakeFile::new(String::from("builds/v1.2/report.pdf"), 10, Extension::Pdf);
    assert_eq!(
        nested.output_filename(),
        String::from("builds/v1.2/report.pdf")
    );

    let no_ext = FakeFile::new(String::from("a.b/c"), 10, Extension::Pdf);
    assert_eq!(no_ext.output_filename(), String::from("a.b/c.pdf"));

    let replaced = FakeFile::new(String::from("dir/file.old"), 10, Extension::Zip);
    assert_eq!(replaced.output_filename(), String::from("dir/file.zip"));
}

#[test]
fn test_output_filename_dotfiles_and_empty() {
    // A leading dot opens a dotfile's name and is no extension separator:
    // the canonical extension is appended after it.
    let hidden = FakeFile::new(String::from(".hidden"), 10, Extension::Pdf);
    assert_eq!(hidden.output_filename(), String::from(".hidden.pdf"));

    let nested_hidden = FakeFile::new(String::from("a/.hidden"), 10, Extension::Pdf);
    assert_eq!(nested_hidden.output_filename(), String::from("a/.hidden.pdf"));

    // A dotfile with a real extension has that extension replaced.
    let hidden_ext = FakeFile::new(String::from(".config.old"), 10, Extension::Txt);
    assert_eq!(hidden_ext.output_filename(), String::from(".config.txt"));

    // The empty filename stays empty.
    let empty = FakeFile::new(String::new(), 10, Extension::Pdf);
    assert_eq!(empty.output_filename(), String::new());
}

#[test]
fn test_output_filename_reinfers_type() {
    for e in [
        Extension::Zip,
        Extension::Pdf,
        Extension::Doc,
        Extension::Txt,
    ] {
        for name in ["plain", "with.old", "dir.x/nested", ".hidden"] {
            let f = FakeFile::new(String::from(name), 10, e);
            assert_eq!(FakeFile::infer_type_from_filename(&f.output_filename()), e);
        }
    }
}

#[test]
fn test_new_stores_fields_verbatim() {
    let f = FakeFile::new(String::from("x.bin"), 0, Extension::Txt);
    assert_eq!(f.filename, String::from("x.bin"));
    assert_eq!(f.size, 0);
    assert_eq!(f.file_type, Extension::Txt);
}

#[test]
fn test_from_filename_and_size_infers_txt_fallback() {
    let f = FakeFile::from_filename_and_size(String::from("noext"), 64);
    assert_eq!(f.file_type, Extension::Txt);
    assert_eq!(f.size, 64);

    let g = FakeFile::from_filename_and_size(String::from("weird.xyz"), 64);
    assert_eq!(g.file_type, Extension::Txt);
}
