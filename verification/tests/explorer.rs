//! The directory browser.

use svreader::buffer::BufferId;
use svreader::document::{PageError, PageMetrics, PageSize};
use svreader::explorer::{is_supported_doc, DirItem, ExplorerBuffer, ExplorerKind};
use svreader::paths::{file_name_of, parent_of};
use svreader::viewport::{Look, Viewport};
use svreader::workspace::Workspace;

/// A document without pages.
struct Paper;

impl PageMetrics for Paper {
    fn page_count(&self) -> usize {
        0
    }

    fn page_size(&self, i: usize) -> Result<PageSize, PageError> {
        Err(PageError::OutOfRange { page_idx: i, count: 0 })
    }

    fn composed_page_size(&self, i: usize, _: Look) -> Result<(u32, u32), PageError> {
        Err(PageError::OutOfRange { page_idx: i, count: 0 })
    }
}

fn item(name: &str, is_dir: bool) -> DirItem {
    DirItem { name: name.to_string(), is_dir }
}

/// What stands in the directory that the tests start from.
fn root_items() -> Vec<DirItem> {
    vec![
        item("two.PDF", false),
        item("beta", true),
        item(".hidden", true),
        item("one.pdf", false),
        item("notes.sdr", true),
        item("README.md", false),
        item("alpha", true),
        item(".config", false),
    ]
}

fn alpha_items() -> Vec<DirItem> {
    vec![item("inner.pdf", false)]
}

const ROOT: &str = "/tmp/root";

fn open() -> ExplorerBuffer {
    ExplorerBuffer::open(BufferId(1), ROOT.to_string(), &root_items())
}

#[test]
fn lists_only_supported_entries_and_hides_sidecars() {
    let ex = open();

    let names: Vec<String> = ex.entries.iter().map(|e| e.name.clone()).collect();
    // `..` always first when a parent exists.
    assert_eq!(names.first().map(String::as_str), Some(".."));
    // Dirs, sorted, before files.
    assert!(names.contains(&"alpha".to_string()));
    assert!(names.contains(&"beta".to_string()));
    // Hidden and sidecar are gone.
    assert!(!names.iter().any(|n| n == ".hidden"));
    assert!(!names.iter().any(|n| n == "notes.sdr"));
    assert!(!names.iter().any(|n| n == ".config"));
    // Unsupported file is gone.
    assert!(!names.iter().any(|n| n == "README.md"));
    // PDFs appear (case-insensitive extension match).
    assert!(names.contains(&"one.pdf".to_string()));
    assert!(names.contains(&"two.PDF".to_string()));

    // Kinds: ParentDir, then dirs, then pdfs.
    let parent_pos = ex.entries.iter().position(|e| e.kind == ExplorerKind::ParentDir).unwrap();
    let first_pdf_pos = ex.entries.iter().position(|e| e.kind == ExplorerKind::Pdf).unwrap();
    let last_dir_pos = ex.entries.iter().rposition(|e| e.kind == ExplorerKind::Dir).unwrap();
    assert!(parent_pos < last_dir_pos);
    assert!(last_dir_pos < first_pdf_pos);
    assert_eq!(names, ["..", "alpha", "beta", "one.pdf", "two.PDF"]);
}

#[test]
fn move_selection_clamps_at_edges() {
    let mut ex = open();
    let n = ex.entries.len();
    assert!(n >= 4);

    ex.move_selection(1);
    assert_eq!(ex.selected, 1);
    ex.move_selection(-100);
    assert_eq!(ex.selected, 0);
    ex.move_selection(1000);
    assert_eq!(ex.selected, n - 1);
}

#[test]
fn descend_into_dir_then_parent_returns_to_it() {
    let mut ex = open();

    // Position on "alpha".
    let alpha_idx = ex.entries.iter().position(|e| e.name == "alpha").expect("alpha present");
    ex.selected = alpha_idx;

    let alpha_path = ex.selected_path().expect("selected path");
    assert_eq!(alpha_path, "/tmp/root/alpha");
    ex.set_cwd(alpha_path, &alpha_items());

    // We should now be inside alpha/ and see inner.pdf.
    assert!(ex.entries.iter().any(|e| e.name == "inner.pdf"));

    // Parent: back to root with `alpha` highlighted.
    let up = parent_of(&ex.cwd).unwrap();
    assert_eq!(up, ROOT);
    ex.parent(up, &root_items());
    assert_eq!(ex.entries.get(ex.selected).map(|e| e.name.as_str()), Some("alpha"));
}

#[test]
fn selected_path_on_pdf_is_file_absolute() {
    let mut ex = open();
    let pdf_idx = ex.entries.iter().position(|e| e.name == "one.pdf").expect("one.pdf present");
    ex.selected = pdf_idx;

    let p = ex.selected_path().expect("selected path");
    assert!(p.ends_with("one.pdf"));
    assert!(p.starts_with('/'));
    assert_eq!(p, "/tmp/root/one.pdf");
}

#[test]
fn parent_at_filesystem_root_is_noop() {
    let mut ws = Workspace::<Paper>::with_explorer("/".to_string(), root_items(), Viewport::default());
    let id = ws.focused_window().buffer;
    let names = |ws: &Workspace<Paper>| -> Vec<String> {
        let ex = ws.buffer(id).unwrap().as_explorer().unwrap();
        ex.entries.iter().map(|e| e.name.clone()).collect()
    };
    let before = names(&ws);
    assert!(!before.is_empty());
    let ex = ws.buffer(id).unwrap().as_explorer().unwrap();
    assert!(parent_of(&ex.cwd).is_none());
    // Nor is there an entry that leads up.
    assert!(ex.entries.iter().all(|e| e.kind != ExplorerKind::ParentDir));
    ws.explorer_parent(None).unwrap();
    assert_eq!(names(&ws), before);
    assert_eq!(ws.buffer(id).unwrap().as_explorer().unwrap().cwd, "/");
}

#[test]
fn a_refresh_keeps_the_selected_entry() {
    let mut ex = open();
    ex.selected = 3;
    assert_eq!(ex.entries[3].name, "one.pdf");
    ex.refresh(&vec![item("one.pdf", false), item("zeta", true)]);
    assert_eq!(ex.entries[ex.selected].name, "one.pdf");
    ex.refresh(&vec![item("zeta", true)]);
    assert_eq!(ex.selected, 0);
}

#[test]
fn extensions_count_in_any_case() {
    assert!(is_supported_doc("a.pdf"));
    assert!(is_supported_doc("A.B.PdF"));
    assert!(!is_supported_doc("pdf"));
    assert!(!is_supported_doc("a.pdf.txt"));
    assert!(!is_supported_doc("a."));
}

#[test]
fn paths_have_names_and_parents() {
    assert_eq!(file_name_of("/a/b.pdf"), Some("b.pdf".to_string()));
    assert_eq!(file_name_of("/a/b/"), Some("b".to_string()));
    assert_eq!(file_name_of("/"), None);
    assert_eq!(parent_of("/a/b"), Some("/a".to_string()));
    assert_eq!(parent_of("/a"), Some("/".to_string()));
    assert_eq!(parent_of("/"), None);
}

#[test]
fn first_and_last_are_ends_of_the_list() {
    let mut ex = open();
    ex.goto_last();
    assert_eq!(ex.selected, 4);
    ex.goto_first();
    assert_eq!(ex.selected, 0);
    assert!(ex.selected_entry().unwrap().is_dir_like());
    assert_eq!(ex.display_name(), "[root]");
}
