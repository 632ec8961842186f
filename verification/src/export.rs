//! What leaves the reader: pages as PNG files, and the text of a document.
use image::codecs::png::PngEncoder;
use image::{ExtendedColorType, ImageEncoder};
use vstd::prelude::*;

use crate::paths::{self, extension_start, file_name_of};
use crate::picture::Image;
use crate::text::{self, from_chars, owned, push_decimal, push_ordinal, push_str, to_chars};

verus! {

// ------------------------------ Pictures ------------------------------

/// The error of the `image` crate.
#[verifier::external_type_specification]
#[verifier::external_body]
pub struct ExImageError(image::ImageError);

/// The bytes of a picture's PNG file as `image`'s `PngEncoder` writes it, with
/// its default compression and filter; `None` where it fails.
pub uninterp spec fn png_bytes(data: Seq<u8>, width: u32, height: u32) -> Option<Seq<u8>>;

/// Calls `PngEncoder::write_image` of the `image` crate on the picture's bytes,
/// writing into memory. The file depends on the bytes and the extent alone,
/// and a picture without pixels is refused. How the file is compressed is not
/// said.
#[verifier::external_body]
fn write_png(p: &Image) -> (r: Result<Vec<u8>, image::ImageError>)
    requires
        p.sound(),
    ensures
        match r {
            Ok(bytes) => png_bytes(p.data@, p.width, p.height) == Some(bytes@),
            Err(_) => png_bytes(p.data@, p.width, p.height) is None,
        },
        p.width == 0 || p.height == 0 ==> r is Err,
{
    let mut out = Vec::new();
    let encoder = PngEncoder::new(&mut out);
    encoder.write_image(&p.data, p.width, p.height, ExtendedColorType::Rgba8)?;
    Ok(out)
}

/// The picture could not be written as a PNG file.
#[derive(Debug, Clone, Copy, PartialEq, Eq, Structural)]
pub enum PngError {
    /// The picture has no pixels.
    Blank,
    /// The encoder failed.
    Encoder,
}

/// The PNG file of a picture.
pub fn to_png(p: &Image) -> (r: Result<Vec<u8>, PngError>)
    requires
        p.sound(),
    ensures
        match r {
            Ok(bytes) => p.width > 0 && p.height > 0 && png_bytes(p.data@, p.width, p.height)
                == Some(bytes@),
            Err(PngError::Blank) => p.width == 0 || p.height == 0,
            Err(PngError::Encoder) => p.width > 0 && p.height > 0 && png_bytes(
                p.data@,
                p.width,
                p.height,
            ) is None,
        },
{
    match write_png(p) {
        Ok(bytes) => Ok(bytes),
        Err(_) => if p.width == 0 || p.height == 0 {
            Err(PngError::Blank)
        } else {
            Err(PngError::Encoder)
        },
    }
}

/// The name of a frame's file: its number, with four digits at least.
pub open spec fn frame_name(n: nat) -> Seq<char> {
    "frame_"@ + (if n < 10 {
        "000"@
    } else if n < 100 {
        "00"@
    } else if n < 1000 {
        "0"@
    } else {
        ""@
    }) + text::decimal(n) + ".png"@
}

/// The name of a frame's file.
pub fn frame_file(n: usize) -> (s: String)
    ensures
        s@ == frame_name(n as nat),
{
    let mut s: String = owned("frame_");
    push_str(
        &mut s,
        if n < 10 {
            "000"
        } else if n < 100 {
            "00"
        } else if n < 1000 {
            "0"
        } else {
            ""
        },
    );
    push_decimal(&mut s, n as u64);
    push_str(&mut s, ".png");
    s
}

// ------------------------------ Clipboard ------------------------------

/// A program that takes a picture into the clipboard.
#[derive(Debug, Clone, Copy, PartialEq, Eq, Structural)]
pub enum ClipboardTool {
    WlCopy,
    Xclip,
}

impl ClipboardTool {
    /// Name and arguments.
    pub open spec fn words(self) -> (Seq<char>, Seq<Seq<char>>) {
        match self {
            ClipboardTool::WlCopy => ("wl-copy"@, seq!["--type"@, "image/png"@]),
            ClipboardTool::Xclip => (
                "xclip"@,
                seq!["-selection"@, "clipboard"@, "-t"@, "image/png"@],
            ),
        }
    }

    /// The name of the program.
    pub fn name(self) -> (s: &'static str)
        ensures
            s@ == self.words().0,
    {
        match self {
            ClipboardTool::WlCopy => "wl-copy",
            ClipboardTool::Xclip => "xclip",
        }
    }

    /// The arguments to call it with.
    pub fn args(self) -> (v: Vec<&'static str>)
        ensures
            v@.len() == self.words().1.len(),
            forall|i: int| 0 <= i < v@.len() ==> (#[trigger] v@[i])@ == self.words().1[i],
    {
        match self {
            ClipboardTool::WlCopy => vec!["--type", "image/png"],
            ClipboardTool::Xclip => vec!["-selection", "clipboard", "-t", "image/png"],
        }
    }
}

/// The programs to try, in order: under Wayland its own first.
pub fn clipboard_tools(wayland: bool) -> (v: Vec<ClipboardTool>)
    ensures
        v@ == (if wayland {
            seq![ClipboardTool::WlCopy, ClipboardTool::Xclip]
        } else {
            seq![ClipboardTool::Xclip, ClipboardTool::WlCopy]
        }),
{
    let v: Vec<ClipboardTool> = if wayland {
        vec![ClipboardTool::WlCopy, ClipboardTool::Xclip]
    } else {
        vec![ClipboardTool::Xclip, ClipboardTool::WlCopy]
    };
    assert(v@ =~= (if wayland {
        seq![ClipboardTool::WlCopy, ClipboardTool::Xclip]
    } else {
        seq![ClipboardTool::Xclip, ClipboardTool::WlCopy]
    }));
    v
}

// ------------------------------ Text ------------------------------

/// What stands in the text for a page.
pub open spec fn page_block(i: int, page: Result<String, String>) -> Seq<char> {
    (if i > 0 {
        "\n\n"@
    } else {
        Seq::empty()
    }) + "--- Page "@ + text::decimal((i + 1) as nat) + " ---\n\n"@ + (match page {
        Ok(t) => t@,
        Err(e) => "[failed to extract page "@ + text::decimal((i + 1) as nat) + ": "@ + e@
            + "]\n"@,
    })
}

/// The first `n` pages of the text of a document.
pub open spec fn text_pages(pages: Seq<Result<String, String>>, n: nat) -> Seq<char>
    decreases n,
{
    if n == 0 {
        Seq::empty()
    } else {
        text_pages(pages, (n - 1) as nat) + page_block(n - 1, pages[n - 1])
    }
}

fn page_string(i: usize, page: &Result<String, String>) -> (s: String)
    ensures
        s@ == page_block(i as int, *page),
{
    let mut s: String = String::new();
    assert(s@ =~= Seq::empty());
    if i > 0 {
        push_str(&mut s, "\n\n");
        assert(s@ =~= "\n\n"@);
    }
    push_str(&mut s, "--- Page ");
    push_ordinal(&mut s, i);
    push_str(&mut s, " ---\n\n");
    match page {
        Ok(t) => push_str(&mut s, t.as_str()),
        Err(e) => {
            let ghost head = s@;
            push_str(&mut s, "[failed to extract page ");
            push_ordinal(&mut s, i);
            push_str(&mut s, ": ");
            push_str(&mut s, e.as_str());
            push_str(&mut s, "]\n");
            assert(s@ =~= head + ("[failed to extract page "@ + text::decimal((i + 1) as nat)
                + ": "@ + e@ + "]\n"@));
        },
    }
    s
}

/// The text of a document. Of each page there is its text, or why there is
/// none.
pub fn document_text(pages: &Vec<Result<String, String>>) -> (s: String)
    ensures
        s@ == text_pages(pages@, pages@.len()),
{
    let mut s: String = String::new();
    let n: usize = pages.len();
    let mut i: usize = 0;
    assert(s@ =~= text_pages(pages@, 0));
    while i < n
        invariant
            i <= n == pages@.len(),
            s@ == text_pages(pages@, i as nat),
        decreases n - i,
    {
        let block: String = page_string(i, &pages[i]);
        push_str(&mut s, block.as_str());
        i += 1;
    }
    s
}

/// The name of a file without its extension.
pub open spec fn stem(name: Seq<char>) -> Seq<char> {
    match paths::extension(name) {
        Some(e) => if name.len() - e.len() - 1 > 0 {
            name.take(name.len() - e.len() - 1)
        } else {
            name
        },
        None => name,
    }
}

/// The name of the file that a document's text goes to.
pub open spec fn text_name(path: Seq<char>, process: nat) -> Seq<char> {
    "svreader-"@ + (match paths::file_name(path) {
        Some(name) => stem(name),
        None => "document"@,
    }) + "-"@ + text::decimal(process) + ".txt"@
}

fn stem_of(name: &str) -> (s: String)
    ensures
        s@ == stem(name@),
{
    let cs: Vec<char> = to_chars(name);
    let n: usize = cs.len();
    match extension_start(&cs) {
        Some(i) => {
            proof {
                paths::lemma_extension(cs@);
            }
            let dot: usize = i - 1;
            if dot > 0 {
                let s: String = from_chars(&cs, 0, dot);
                assert(s@ =~= stem(name@));
                s
            } else {
                owned(name)
            }
        },
        None => owned(name),
    }
}

/// The name of the file that a document's text goes to. `process` tells apart
/// readers that run at the same time.
pub fn text_file(path: &str, process: u32) -> (s: String)
    ensures
        s@ == text_name(path@, process as nat),
{
    let mut s: String = owned("svreader-");
    let part: String = match file_name_of(path) {
        Some(name) => stem_of(name.as_str()),
        None => owned("document"),
    };
    push_str(&mut s, part.as_str());
    push_str(&mut s, "-");
    push_decimal(&mut s, process as u64);
    push_str(&mut s, ".txt");
    s
}

/// The editor to open a text in: the one that was asked for, else the first
/// of `vim`, `vi` and `nano` that was found, else `vi`.
pub fn pick_editor(editor: Option<String>, visual: Option<String>, found: (bool, bool, bool)) -> (s:
    String)
    ensures
        s@ == (match (editor, visual) {
            (Some(e), _) => e@,
            (None, Some(v)) => v@,
            (None, None) => if found.0 {
                "vim"@
            } else if !found.1 && found.2 {
                "nano"@
            } else {
                "vi"@
            },
        }),
{
    match (editor, visual) {
        (Some(e), _) => e,
        (None, Some(v)) => v,
        (None, None) => if found.0 {
            owned("vim")
        } else if found.1 {
            owned("vi")
        } else if found.2 {
            owned("nano")
        } else {
            owned("vi")
        },
    }
}

} // verus!
