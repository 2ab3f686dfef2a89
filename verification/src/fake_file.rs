use vstd::prelude::*;

use crate::random_source::fill_random;

verus! {

/// The closed set of file types the generator understands.
#[derive(Clone, Copy, PartialEq, Eq, Structural, Debug)]
pub enum Extension {
    Zip,
    Pdf,
    Doc,
    Txt,
}

/// The magic-byte header that identifies each file type to sniffing tools.
/// `Txt` has no header; the other variants map to fixed non-empty sequences.
pub open spec fn header_spec(e: Extension) -> Seq<u8> {
    match e {
        Extension::Zip => seq![
            0x50u8, 0x4b, 0x03, 0x04, 0x0a, 0x00, 0x00, 0x00, 0x00, 0x00, 0x26, 0x79, 0x5d, 0x40,
            0xde, 0xbd, 0xac, 0x82, 0x00, 0x04, 0x00, 0x00, 0x00, 0x04, 0x00, 0x00, 0x0a, 0x00,
            0x1c, 0x00,
        ],
        Extension::Pdf => seq![
            0x25u8, 0x50, 0x44, 0x46, 0x2d, 0x31, 0x2e, 0x34, 0x0a, 0x25, 0xe1, 0xe9, 0xeb,
        ],
        Extension::Doc => seq![0xd0u8, 0xcf, 0x11, 0xe0, 0xa1, 0xb1, 0x1a, 0xe1],
        Extension::Txt => Seq::<u8>::empty(),
    }
}

impl Extension {
    /// The magic-byte header for this file type, as a fresh buffer the
    /// caller may extend or mutate freely.
    pub fn header(&self) -> (h: Vec<u8>)
        ensures
            h@ == header_spec(*self),
    {
        let h: Vec<u8> = match self {
            Extension::Zip => vec![
                0x50, 0x4b, 0x03, 0x04, 0x0a, 0x00, 0x00, 0x00, 0x00, 0x00, 0x26, 0x79, 0x5d,
                0x40, 0xde, 0xbd, 0xac, 0x82, 0x00, 0x04, 0x00, 0x00, 0x00, 0x04, 0x00, 0x00,
                0x0a, 0x00, 0x1c, 0x00,
            ],
            Extension::Pdf => vec![
                0x25, 0x50, 0x44, 0x46, 0x2d, 0x31, 0x2e, 0x34, 0x0a, 0x25, 0xe1, 0xe9, 0xeb,
            ],
            Extension::Doc => vec![0xd0, 0xcf, 0x11, 0xe0, 0xa1, 0xb1, 0x1a, 0xe1],
            Extension::Txt => Vec::new(),
        };
        proof {
            assert(h@ =~= header_spec(*self));
        }
        h
    }
}

/// Every file type other than `Txt` has a non-empty header; `Txt`'s is empty.
pub proof fn lemma_header_shape(e: Extension)
    ensures
        (e is Txt) <==> header_spec(e).len() == 0,
{
}

/// `a` equals the letter whose lowercase form is `l` and uppercase form is
/// `u`, ignoring case.
pub open spec fn eq_ci(a: char, l: char, u: char) -> bool {
    a == l || a == u
}

/// The canonical lowercase name of each file type.
pub open spec fn canonical_name(e: Extension) -> Seq<char> {
    match e {
        Extension::Zip => seq!['z', 'i', 'p'],
        Extension::Pdf => seq!['p', 'd', 'f'],
        Extension::Doc => seq!['d', 'o', 'c'],
        Extension::Txt => seq!['t', 'x', 't'],
    }
}

/// Parsing an extension token: the four canonical names are recognized up to
/// ASCII case; every other token is rejected.
pub open spec fn parse_ext(token: Seq<char>) -> Option<Extension> {
    if token.len() == 3 {
        if eq_ci(token[0], 'z', 'Z') && eq_ci(token[1], 'i', 'I') && eq_ci(token[2], 'p', 'P') {
            Some(Extension::Zip)
        } else if eq_ci(token[0], 'p', 'P') && eq_ci(token[1], 'd', 'D') && eq_ci(
            token[2],
            'f',
            'F',
        ) {
            Some(Extension::Pdf)
        } else if eq_ci(token[0], 'd', 'D') && eq_ci(token[1], 'o', 'O') && eq_ci(
            token[2],
            'c',
            'C',
        ) {
            Some(Extension::Doc)
        } else if eq_ci(token[0], 't', 'T') && eq_ci(token[1], 'x', 'X') && eq_ci(
            token[2],
            't',
            'T',
        ) {
            Some(Extension::Txt)
        } else {
            None
        }
    } else {
        None
    }
}

impl Extension {
    /// Parses a case-insensitive extension token against the closed set of
    /// file types; unknown tokens are rejected.
    pub fn from_token(token: &str) -> (r: Option<Extension>)
        ensures
            r == parse_ext(token@),
    {
        let n = token.unicode_len();
        if n != 3 {
            return None;
        }
        let c0 = token.get_char(0);
        let c1 = token.get_char(1);
        let c2 = token.get_char(2);
        if (c0 == 'z' || c0 == 'Z') && (c1 == 'i' || c1 == 'I') && (c2 == 'p' || c2 == 'P') {
            Some(Extension::Zip)
        } else if (c0 == 'p' || c0 == 'P') && (c1 == 'd' || c1 == 'D') && (c2 == 'f' || c2 == 'F') {
            Some(Extension::Pdf)
        } else if (c0 == 'd' || c0 == 'D') && (c1 == 'o' || c1 == 'O') && (c2 == 'c' || c2 == 'C') {
            Some(Extension::Doc)
        } else if (c0 == 't' || c0 == 'T') && (c1 == 'x' || c1 == 'X') && (c2 == 't' || c2 == 'T') {
            Some(Extension::Txt)
        } else {
            None
        }
    }

    /// The canonical lowercase name of this file type, the form used when an
    /// output filename is derived from it.
    pub fn name(&self) -> (r: &'static str)
        ensures
            r@ == canonical_name(*self),
    {
        match self {
            Extension::Zip => {
                let r = "zip";
                proof {
                    reveal_strlit("zip");
                    assert(r@ =~= canonical_name(Extension::Zip));
                }
                r
            },
            Extension::Pdf => {
                let r = "pdf";
                proof {
                    reveal_strlit("pdf");
                    assert(r@ =~= canonical_name(Extension::Pdf));
                }
                r
            },
            Extension::Doc => {
                let r = "doc";
                proof {
                    reveal_strlit("doc");
                    assert(r@ =~= canonical_name(Extension::Doc));
                }
                r
            },
            Extension::Txt => {
                let r = "txt";
                proof {
                    reveal_strlit("txt");
                    assert(r@ =~= canonical_name(Extension::Txt));
                }
                r
            },
        }
    }
}

/// Round trip of the bidirectional mapping: parsing the canonical name of
/// any file type yields that same file type.
pub proof fn lemma_name_round_trip(e: Extension)
    ensures
        parse_ext(canonical_name(e)) == Some(e),
{
}

/// The index of the last occurrence of `c` in `f`, or `-1` when `f` holds
/// none.
pub open spec fn last_index_of(f: Seq<char>, c: char) -> int
    decreases f.len(),
{
    if f.len() == 0 {
        -1
    } else if f[f.len() - 1] == c {
        f.len() - 1
    } else {
        last_index_of(f.drop_last(), c)
    }
}

/// `last_index_of` finds the last occurrence: at a non-negative result the
/// character is `c`, and `c` never occurs after it; `-1` means `c` does not
/// occur at all.
pub proof fn lemma_last_index_of(f: Seq<char>, c: char)
    ensures
        -1 <= last_index_of(f, c) < f.len(),
        last_index_of(f, c) >= 0 ==> f[last_index_of(f, c)] == c,
        forall|j: int| last_index_of(f, c) < j < f.len() ==> f[j] != c,
    decreases f.len(),
{
    if f.len() == 0 {
    } else if f[f.len() - 1] == c {
    } else {
        lemma_last_index_of(f.drop_last(), c);
        assert forall|j: int| last_index_of(f, c) < j < f.len() implies f[j] != c by {
            if j < f.len() - 1 {
                assert(f.drop_last()[j] == f[j]);
                assert(f.drop_last()[j] != c);
            }
        }
    }
}

/// The index of the last `'.'` in `f`, or `-1` when `f` holds none.
pub open spec fn last_dot(f: Seq<char>) -> int {
    last_index_of(f, '.')
}

/// The index of the last `'/'` in `f`, or `-1` when `f` holds none. A `'/'`
/// separates path components, so the final component starts just after it.
pub open spec fn last_slash(f: Seq<char>) -> int {
    last_index_of(f, '/')
}

/// The extension token of a filename: the characters after its last `'.'`,
/// or nothing when the filename holds no dot.
pub open spec fn ext_token(f: Seq<char>) -> Option<Seq<char>> {
    if last_dot(f) >= 0 {
        Some(f.subrange(last_dot(f) + 1, f.len() as int))
    } else {
        None
    }
}

/// The extension separator for deriving an output name: the last `'.'` of
/// the filename, provided it lies inside the final path component and is
/// not that component's first character (so a dotfile such as `.hidden`
/// has no separator); `-1` otherwise. A dot inside a directory name never
/// counts: the separator must come after the last `'/'`.
pub open spec fn sep_dot(f: Seq<char>) -> int {
    if last_dot(f) > last_slash(f) + 1 {
        last_dot(f)
    } else {
        -1
    }
}

/// The stem of a filename: everything before its extension separator, or
/// the whole filename when it has none. The directory part is always kept.
pub open spec fn stem(f: Seq<char>) -> Seq<char> {
    if sep_dot(f) >= 0 {
        f.subrange(0, sep_dot(f))
    } else {
        f
    }
}

/// File-type inference from a filename: parse the extension token, and fall
/// back to `Txt` when there is no token or it is not recognized.
pub open spec fn infer_spec(f: Seq<char>) -> Extension {
    match ext_token(f) {
        Some(token) => match parse_ext(token) {
            Some(e) => e,
            None => Extension::Txt,
        },
        None => Extension::Txt,
    }
}

/// The output filename: the stem, a dot, and the canonical lowercase name
/// of the file type. An extension in the final path component is replaced;
/// a final component without one (including a dotfile's leading dot) has
/// the extension appended; the empty filename stays empty.
pub open spec fn output_name_spec(f: Seq<char>, e: Extension) -> Seq<char> {
    if f.len() == 0 {
        f
    } else {
        stem(f) + seq!['.'] + canonical_name(e)
    }
}

/// Deriving an output name only rewrites the final path component's
/// extension: the stem (directory part and file stem) is kept unchanged,
/// exactly a dot and the canonical lowercase name follow it, and in
/// particular everything up to and including the last `'/'` stays as it
/// was.
pub proof fn lemma_output_preserves_parent(f: Seq<char>, e: Extension)
    requires
        f.len() > 0,
    ensures
        output_name_spec(f, e).subrange(0, stem(f).len() as int) == stem(f),
        output_name_spec(f, e).subrange(
            stem(f).len() as int,
            output_name_spec(f, e).len() as int,
        ) == seq!['.'] + canonical_name(e),
        output_name_spec(f, e).subrange(0, last_slash(f) + 1) == f.subrange(0, last_slash(f) + 1),
{
    lemma_last_index_of(f, '.');
    lemma_last_index_of(f, '/');
    assert(output_name_spec(f, e).subrange(0, stem(f).len() as int) =~= stem(f));
    assert(output_name_spec(f, e).subrange(stem(f).len() as int, output_name_spec(f, e).len() as int)
        =~= seq!['.'] + canonical_name(e));
    assert(output_name_spec(f, e).subrange(0, last_slash(f) + 1) =~= f.subrange(
        0,
        last_slash(f) + 1,
    ));
}

/// An output name always re-infers to the file type it was built for: the
/// inserted dot is the last dot of the output name, and the canonical name
/// after it parses back to the same type.
pub proof fn lemma_output_reinfers(f: Seq<char>, e: Extension)
    requires
        f.len() > 0,
    ensures
        infer_spec(output_name_spec(f, e)) == e,
{
    let g = output_name_spec(f, e);
    let k = stem(f).len() as int;
    assert(g[k] == '.');
    assert(forall|j: int| k < j < g.len() ==> g[j] == canonical_name(e)[j - k - 1]);
    assert(forall|j: int| k < j < g.len() ==> g[j] != '.');
    lemma_last_index_of(g, '.');
    if last_dot(g) < k {
        assert(g[k] != '.');
    }
    assert(last_dot(g) == k);
    assert(g.subrange(k + 1, g.len() as int) =~= canonical_name(e));
    lemma_name_round_trip(e);
}

/// The index of the last `'.'` of `s`, scanning characters from the end.
fn rfind_dot(s: &str) -> (r: Option<usize>)
    ensures
        match r {
            Some(i) => i as int == last_dot(s@),
            None => last_dot(s@) == -1,
        },
{
    let n = s.unicode_len();
    let mut i: usize = n;
    while i > 0
        invariant
            i <= n,
            n == s@.len(),
            forall|j: int| i <= j < n ==> s@[j] != '.',
        decreases i,
    {
        let c = s.get_char(i - 1);
        if c == '.' {
            proof {
                lemma_last_index_of(s@, '.');
                assert(s@[i - 1] == '.');
                if last_dot(s@) < i - 1 {
                    assert(s@[i - 1] != '.');
                }
                if last_dot(s@) > i - 1 {
                    assert(s@[last_dot(s@)] != '.');
                }
            }
            return Some(i - 1);
        }
        i = i - 1;
    }
    proof {
        lemma_last_index_of(s@, '.');
        if last_dot(s@) >= 0 {
            assert(s@[last_dot(s@)] != '.');
        }
    }
    None
}

/// The index of the extension separator of `s` (see `sep_dot`), scanning
/// characters from the end and stopping at the first `'/'`.
fn rfind_sep_dot(s: &str) -> (r: Option<usize>)
    ensures
        match r {
            Some(i) => i as int == sep_dot(s@) && (i as int) < s@.len(),
            None => sep_dot(s@) == -1,
        },
{
    let n = s.unicode_len();
    let mut i: usize = n;
    while i > 0
        invariant
            i <= n,
            n == s@.len(),
            forall|j: int| i <= j < n ==> s@[j] != '.' && s@[j] != '/',
        decreases i,
    {
        let c = s.get_char(i - 1);
        if c == '/' {
            // A slash before any dot: the final component holds no dot.
            proof {
                lemma_last_index_of(s@, '.');
                lemma_last_index_of(s@, '/');
                assert(s@[i - 1] == '/');
                if last_slash(s@) < i - 1 {
                    assert(s@[i - 1] != '/');
                }
                if last_dot(s@) >= i - 1 {
                    assert(s@[last_dot(s@)] == '.' && s@[last_dot(s@)] != '.');
                }
            }
            return None;
        }
        if c == '.' {
            proof {
                lemma_last_index_of(s@, '.');
                lemma_last_index_of(s@, '/');
                assert(s@[i - 1] == '.');
                if last_dot(s@) < i - 1 {
                    assert(s@[i - 1] != '.');
                }
                if last_dot(s@) > i - 1 {
                    assert(s@[last_dot(s@)] != '.');
                }
                assert(last_dot(s@) == i - 1);
                if last_slash(s@) >= i - 1 {
                    assert(s@[last_slash(s@)] == '/' && s@[last_slash(s@)] != '/');
                }
            }
            if i - 1 == 0 {
                // The dot opens the filename itself: a dotfile, no separator.
                return None;
            }
            let prev = s.get_char(i - 2);
            if prev == '/' {
                // The dot opens the final component: a dotfile, no separator.
                proof {
                    lemma_last_index_of(s@, '/');
                    if last_slash(s@) < i - 2 {
                        assert(s@[i - 2] != '/');
                    }
                    assert(last_slash(s@) == i - 2);
                }
                return None;
            }
            proof {
                lemma_last_index_of(s@, '/');
                if last_slash(s@) == i - 2 {
                    assert(s@[i - 2] == '/');
                }
                assert(last_slash(s@) < i - 2);
            }
            return Some(i - 1);
        }
        i = i - 1;
    }
    proof {
        lemma_last_index_of(s@, '.');
        if last_dot(s@) >= 0 {
            assert(s@[last_dot(s@)] != '.');
        }
        lemma_last_index_of(s@, '/');
    }
    None
}

/// A filename with no dot infers `Txt`; one whose token after the last dot
/// is not recognized infers `Txt`; a recognized token infers its file type.
pub proof fn lemma_infer_fallback(f: Seq<char>, e: Extension)
    ensures
        last_dot(f) == -1 ==> infer_spec(f) == Extension::Txt,
        last_dot(f) >= 0 && parse_ext(f.subrange(last_dot(f) + 1, f.len() as int)) is None
            ==> infer_spec(f) == Extension::Txt,
        last_dot(f) >= 0 && parse_ext(f.subrange(last_dot(f) + 1, f.len() as int)) == Some(e)
            ==> infer_spec(f) == e,
{
}

/// The length of the buffer built for a requested `size` and file type: the
/// larger of the requested size and the header's length. The header is
/// always written in full; an undersized request grows to the header.
pub open spec fn buffer_len_spec(size: u64, e: Extension) -> int {
    if size as int >= header_spec(e).len() {
        size as int
    } else {
        header_spec(e).len() as int
    }
}

/// A placeholder file to generate: where it goes, how large it should be,
/// and which file type's header it carries.
#[derive(Debug)]
pub struct FakeFile {
    pub filename: String,
    pub size: u64,
    pub file_type: Extension,
}

impl FakeFile {
    /// Creates a new FakeFile with the specified parameters, stored
    /// verbatim; nothing is validated here.
    pub fn new(filename: String, size: u64, file_type: Extension) -> (f: FakeFile)
        ensures
            f.filename == filename,
            f.size == size,
            f.file_type == file_type,
    {
        FakeFile { filename, size, file_type }
    }

    /// Infers the file type from the filename's extension token (the text
    /// after the last dot, case-insensitive), defaulting to `Txt`.
    pub fn infer_type_from_filename(filename: &str) -> (e: Extension)
        ensures
            e == infer_spec(filename@),
    {
        match rfind_dot(filename) {
            None => Extension::Txt,
            Some(d) => {
                proof {
                    lemma_last_index_of(filename@, '.');
                }
                let n = filename.unicode_len();
                let token = filename.substring_char(d + 1, n);
                match Extension::from_token(token) {
                    Some(e) => e,
                    None => Extension::Txt,
                }
            },
        }
    }

    /// Creates a FakeFile with the file type inferred from the filename.
    pub fn from_filename_and_size(filename: String, size: u64) -> (f: FakeFile)
        ensures
            f.filename == filename,
            f.size == size,
            f.file_type == infer_spec(filename@),
    {
        let file_type = Self::infer_type_from_filename(filename.as_str());
        Self::new(filename, size, file_type)
    }

    /// The output filename: the stored filename with the extension of its
    /// final path component replaced by the canonical lowercase name of the
    /// file type. The directory part is never touched; a final component
    /// without an extension (a dotfile included) has one appended; the
    /// empty filename is returned unchanged.
    pub fn output_filename(&self) -> (r: String)
        ensures
            r@ == output_name_spec(self.filename@, self.file_type),
    {
        let s: &str = self.filename.as_str();
        if s.is_empty() {
            return s.to_owned();
        }
        let stem_str: &str = match rfind_sep_dot(s) {
            Some(d) => s.substring_char(0, d),
            None => s,
        };
        let mut out: String = stem_str.to_owned();
        out.append(".");
        out.append(self.file_type.name());
        proof {
            reveal_strlit(".");
            assert(out@ =~= output_name_spec(self.filename@, self.file_type));
        }
        out
    }

    /// Builds the file's contents: the full header for the file type,
    /// followed by enough random filler bytes to reach the requested size.
    /// The header is always written whole, so an undersized request yields
    /// a buffer of the header's length instead.
    pub fn create_buffer(&self, rng: &mut rand::rngs::StdRng) -> (buf: Vec<u8>)
        ensures
            buf@.len() == buffer_len_spec(self.size, self.file_type),
            buf@.subrange(0, header_spec(self.file_type).len() as int) == header_spec(
                self.file_type,
            ),
    {
        let mut buf = self.file_type.header();
        let hlen: u64 = buf.len() as u64;
        let remaining: u64 = if self.size > hlen {
            self.size - hlen
        } else {
            0
        };
        let mut rest: Vec<u8> = Vec::new();
        let mut i: u64 = 0;
        while i < remaining
            invariant
                i <= remaining,
                rest@.len() == i as nat,
            decreases remaining - i,
        {
            rest.push(0u8);
            i = i + 1;
        }
        fill_random(rng, &mut rest);
        buf.append(&mut rest);
        proof {
            assert(buf@.subrange(0, header_spec(self.file_type).len() as int) =~= header_spec(
                self.file_type,
            ));
        }
        buf
    }
}

} // verus!


