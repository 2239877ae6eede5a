//! The screen of the browser as plain values: the list of tests, the detail
//! of the selected run, and the footer. What is drawn follows from the store,
//! the navigation state and the text of the selected log alone.

use crate::model::{holds, passes, runs_of, texts, well_formed, Results};
use crate::nav::{fits, start_line, Navigation};
use crate::order::{
    lemma_sorted_names, lemma_sorted_patches, patch_texts, sorted_names, sorted_patches,
};
use crate::store::ResultStore;
use crate::text::{count_lines, decimal, decimal_text, line_count};
use vstd::prelude::*;

verus! {

/// A color of the palette that the browser draws with.
#[derive(Clone, Copy, Debug, PartialEq, Eq, Structural)]
pub enum Shade {
    Black,
    White,
    Red,
    Green,
    LightRed,
    LightGreen,
    LightYellow,
}

/// How a piece of text is drawn.
#[derive(Clone, Copy, Debug, PartialEq, Eq, Structural)]
pub struct Look {
    pub fg: Option<Shade>,
    pub bg: Option<Shade>,
    pub bold: bool,
}

/// One row of the list of tests.
#[derive(Clone, Debug, PartialEq, Eq)]
pub struct ListRow {
    pub label: String,
    pub look: Look,
}

/// The list of tests, framed and titled.
#[derive(Clone, Debug, PartialEq, Eq)]
pub struct ListPane {
    pub title: String,
    pub rows: Vec<ListRow>,
    pub selected: Option<usize>,
    pub highlight: Look,
}

/// The selected run: the tab strip of its test's patches, a header with the
/// path of its log, and the text of the log.
#[derive(Clone, Debug, PartialEq, Eq)]
pub struct DetailPane {
    pub tabs: Vec<String>,
    pub selected_tab: usize,
    pub tab_highlight: Look,
    pub header: String,
    pub text: String,
    pub first_line: u16,
}

/// One frame. Without a detail the lower pane is an empty box.
#[derive(Clone, Debug, PartialEq, Eq)]
pub struct Screen {
    pub list: ListPane,
    pub detail: Option<DetailPane>,
    pub footer: String,
}

/// A [`ListRow`] with its label as a sequence of characters.
pub struct ListRowView {
    pub label: Seq<char>,
    pub look: Look,
}

/// A [`ListPane`] with its texts as sequences of characters.
pub struct ListPaneView {
    pub title: Seq<char>,
    pub rows: Seq<ListRowView>,
    pub selected: Option<usize>,
    pub highlight: Look,
}

/// A [`DetailPane`] with its texts as sequences of characters.
pub struct DetailPaneView {
    pub tabs: Seq<Seq<char>>,
    pub selected_tab: usize,
    pub tab_highlight: Look,
    pub header: Seq<char>,
    pub text: Seq<char>,
    pub first_line: u16,
}

/// A [`Screen`] with its texts as sequences of characters.
pub struct ScreenView {
    pub list: ListPaneView,
    pub detail: Option<DetailPaneView>,
    pub footer: Seq<char>,
}

impl View for ListRow {
    type V = ListRowView;

    open spec fn view(&self) -> ListRowView {
        ListRowView { label: self.label@, look: self.look }
    }
}

impl View for ListPane {
    type V = ListPaneView;

    open spec fn view(&self) -> ListPaneView {
        ListPaneView {
            title: self.title@,
            rows: self.rows@.map_values(|r: ListRow| r@),
            selected: self.selected,
            highlight: self.highlight,
        }
    }
}

impl View for DetailPane {
    type V = DetailPaneView;

    open spec fn view(&self) -> DetailPaneView {
        DetailPaneView {
            tabs: texts(self.tabs@),
            selected_tab: self.selected_tab,
            tab_highlight: self.tab_highlight,
            header: self.header@,
            text: self.text@,
            first_line: self.first_line,
        }
    }
}

impl View for Screen {
    type V = ScreenView;

    open spec fn view(&self) -> ScreenView {
        ScreenView {
            list: self.list@,
            detail: match self.detail {
                Some(d) => Some(d@),
                None => None,
            },
            footer: self.footer@,
        }
    }
}

/// The look of a test's row: on red where no patch passed, on green where
/// all did, on yellow otherwise; black writing in each case.
pub open spec fn row_look(pass: nat, total: nat) -> Look {
    Look {
        fg: Some(Shade::Black),
        bg: Some(
            if pass == 0 {
                Shade::LightRed
            } else if pass == total {
                Shade::LightGreen
            } else {
                Shade::LightYellow
            },
        ),
        bold: false,
    }
}

/// The label of a test's row: its name and how many of its patches passed.
pub open spec fn row_label(name: Seq<char>, pass: nat, total: nat) -> Seq<char> {
    name + "  "@ + decimal(pass) + "/"@ + decimal(total)
}

/// The row of the test named `name`.
pub open spec fn list_row(m: Results, name: Seq<char>) -> ListRowView {
    ListRowView {
        label: row_label(name, passes(runs_of(m, name)), runs_of(m, name).dom().len()),
        look: row_look(passes(runs_of(m, name)), runs_of(m, name).dom().len()),
    }
}

/// The rows of all tests, in the sorted order of their names.
pub open spec fn list_rows(m: Results) -> Seq<ListRowView> {
    sorted_names(m.dom()).map_values(|name: Seq<char>| list_row(m, name))
}

/// The row that is selected, if the selected index is one of the list.
pub open spec fn selected_row(rows: nat, nav: Navigation) -> Option<usize> {
    match nav.selected_test_index {
        Some(t) => if t < rows {
            Some(t)
        } else {
            None
        },
        None => None,
    }
}

/// The look of the selected row: bold on white, written in the color that
/// the row has as its background, so that passed and failed stay apart.
pub open spec fn highlight_look(rows: Seq<ListRowView>, selected: Option<usize>) -> Look {
    Look {
        fg: match selected {
            Some(t) => rows[t as int].look.bg,
            None => Some(Shade::Green),
        },
        bg: Some(Shade::White),
        bold: true,
    }
}

/// The list pane: titled with the root path of the results.
pub open spec fn list_pane(m: Results, nav: Navigation, path: Seq<char>) -> ListPaneView {
    ListPaneView {
        title: path,
        rows: list_rows(m),
        selected: selected_row(list_rows(m).len(), nav),
        highlight: highlight_look(list_rows(m), selected_row(list_rows(m).len(), nav)),
    }
}

/// The run that is selected: the test at the selected position of the sorted
/// tests and the patch at the selected position of its sorted patches. None
/// where either is not selected or lies outside its list.
pub open spec fn selected_run(m: Results, nav: Navigation) -> Option<(Seq<char>, u8)> {
    match (nav.selected_test_index, nav.selected_patch_index) {
        (Some(t), Some(p)) => if t < sorted_names(m.dom()).len() && p < sorted_patches(
            runs_of(m, sorted_names(m.dom())[t as int]).dom(),
        ).len() {
            Some(
                (
                    sorted_names(m.dom())[t as int],
                    sorted_patches(runs_of(m, sorted_names(m.dom())[t as int]).dom())[p as int],
                ),
            )
        } else {
            None
        },
        _ => None,
    }
}

/// A state that points into the store with a test and a patch selected
/// always selects a run that the store holds: no key leads to a tab or a row
/// that is not there.
pub proof fn lemma_selected_run_held(m: Results, nav: Navigation)
    requires
        well_formed(m),
        fits(nav, m),
        nav.selected_test_index is Some,
        nav.selected_patch_index is Some,
    ensures
        selected_run(m, nav) matches Some((test, patch)) && m.dom().contains(test)
            && m[test].dom().contains(patch),
{
    lemma_sorted_names(m.dom());
    let t = nav.selected_test_index->0;
    let test = sorted_names(m.dom())[t as int];
    lemma_sorted_patches(m[test].dom());
}

/// The path of a run's log below the root of the results.
pub open spec fn log_part(patch: u8, test: Seq<char>) -> Seq<char> {
    decimal(patch as nat) + "/"@ + test + "/summary"@
}

/// The path of a run's log.
pub open spec fn log_file(root: Seq<char>, patch: u8, test: Seq<char>) -> Seq<char> {
    root + "/"@ + log_part(patch, test)
}

/// What stands in place of a log that cannot be read.
pub open spec fn unreadable(file: Seq<char>) -> Seq<char> {
    "Cannot read "@ + file
}

/// The text that the detail pane shows for a log.
pub open spec fn shown_text(log: Option<Seq<char>>, file: Seq<char>) -> Seq<char> {
    match log {
        Some(text) => text,
        None => unreadable(file),
    }
}

/// The look of the selected tab: green for a run that passed, red otherwise.
pub open spec fn tab_look(passed: bool) -> Look {
    Look {
        fg: Some(
            if passed {
                Shade::Green
            } else {
                Shade::Red
            },
        ),
        bg: None,
        bold: false,
    }
}

/// The detail pane of the selected run, for the text of its log (`None`
/// where the log cannot be read).
pub open spec fn detail_pane(
    m: Results,
    nav: Navigation,
    root: Seq<char>,
    log: Option<Seq<char>>,
) -> Option<DetailPaneView> {
    match selected_run(m, nav) {
        Some((test, patch)) => Some(
            DetailPaneView {
                tabs: patch_texts(sorted_patches(runs_of(m, test).dom())),
                selected_tab: nav.selected_patch_index->0,
                tab_highlight: tab_look(holds(m, test, patch, 0)),
                header: log_part(patch, test),
                text: shown_text(log, log_file(root, patch, test)),
                first_line: start_line(
                    nav.scroll_offset,
                    line_count(shown_text(log, log_file(root, patch, test))),
                ) as u16,
            },
        ),
        None => None,
    }
}

/// The hint in the footer.
pub open spec fn footer_text() -> Seq<char> {
    "Use: arrows, ENTER/BACKSPC, q"@
}

/// The frame for a store, a navigation state, the root path and the text of
/// the selected log.
pub open spec fn screen_of(
    m: Results,
    nav: Navigation,
    root: Seq<char>,
    log: Option<Seq<char>>,
) -> ScreenView {
    ScreenView {
        list: list_pane(m, nav, root),
        detail: detail_pane(m, nav, root, log),
        footer: footer_text(),
    }
}

/// The view of an optional text.
pub open spec fn text_of(log: Option<&str>) -> Option<Seq<char>> {
    match log {
        Some(text) => Some(text@),
        None => None,
    }
}

/// The row of a test with `pass` of `total` patches passed.
pub fn make_row(name: &str, pass: usize, total: usize) -> (row: ListRow)
    ensures
        row@ == (ListRowView {
            label: row_label(name@, pass as nat, total as nat),
            look: row_look(pass as nat, total as nat),
        }),
{
    let mut label = String::from_str(name);
    label.append("  ");
    label.append(decimal_text(pass as u64).as_str());
    label.append("/");
    label.append(decimal_text(total as u64).as_str());
    let bg = if pass == 0 {
        Shade::LightRed
    } else if pass == total {
        Shade::LightGreen
    } else {
        Shade::LightYellow
    };
    ListRow { label, look: Look { fg: Some(Shade::Black), bg: Some(bg), bold: false } }
}

/// The path of the log of `test` under `patch`, below the root.
pub fn log_part_text(patch: u8, test: &str) -> (part: String)
    ensures
        part@ == log_part(patch, test@),
{
    let mut part = decimal_text(patch as u64);
    part.append("/");
    part.append(test);
    part.append("/summary");
    part
}

/// The path of the log of `test` under `patch`.
pub fn log_file_text(root: &str, patch: u8, test: &str) -> (file: String)
    ensures
        file@ == log_file(root@, patch, test@),
{
    let mut file = String::from_str(root);
    file.append("/");
    file.append(log_part_text(patch, test).as_str());
    file
}

/// The run that the navigation state selects in the store.
pub fn find_selected_run(store: &ResultStore, nav: &Navigation) -> (run: Option<(String, u8)>)
    ensures
        match run {
            Some((test, patch)) => selected_run(store@, *nav) == Some((test@, patch)),
            None => selected_run(store@, *nav) is None,
        },
{
    match (nav.selected_test_index, nav.selected_patch_index) {
        (Some(t), Some(p)) => {
            match store.test_name(t) {
                Some(name) => {
                    let patches = store.patches_sorted(name);
                    if p < patches.len() {
                        Some((String::from_str(name), patches[p]))
                    } else {
                        None
                    }
                },
                None => None,
            }
        },
        _ => None,
    }
}

/// The path of the log that the next frame shows, if a run is selected.
pub fn log_path(store: &ResultStore, nav: &Navigation, root: &str) -> (file: Option<String>)
    ensures
        match file {
            Some(f) => selected_run(store@, *nav) matches Some((test, patch)) && f@ == log_file(
                root@,
                patch,
                test,
            ),
            None => selected_run(store@, *nav) is None,
        },
{
    match find_selected_run(store, nav) {
        Some((test, patch)) => Some(log_file_text(root, patch, test.as_str())),
        None => None,
    }
}

/// The rows of all tests of the store.
pub fn render_rows(store: &ResultStore) -> (rows: Vec<ListRow>)
    ensures
        rows@.map_values(|r: ListRow| r@) == list_rows(store@),
{
    let names = store.test_names_sorted();
    let ghost m = store@;
    let ghost sorted = sorted_names(m.dom());
    let mut rows: Vec<ListRow> = Vec::new();
    let mut i: usize = 0;
    while i < names.len()
        invariant
            i <= names.len(),
            m == store@,
            sorted == sorted_names(m.dom()),
            texts(names@) == sorted,
            rows@.map_values(|r: ListRow| r@) == list_rows(m).take(i as int),
        decreases names.len() - i,
    {
        let name = names[i].as_str();
        let pass = store.pass_count(name);
        let total = store.total_count(name);
        let row = make_row(name, pass, total);
        let ghost drawn = rows@.map_values(|r: ListRow| r@);
        rows.push(row);
        assert(drawn.push(list_row(m, sorted[i as int])) =~= list_rows(m).take(i + 1));
        i += 1;
    }
    rows
}

/// The list pane.
pub fn render_list(store: &ResultStore, nav: &Navigation, path: &str) -> (pane: ListPane)
    ensures
        pane@ == list_pane(store@, *nav, path@),
{
    let rows = render_rows(store);
    let selected: Option<usize> = match nav.selected_test_index {
        Some(t) => if t < rows.len() {
            Some(t)
        } else {
            None
        },
        None => None,
    };
    let fg: Option<Shade> = match selected {
        Some(t) => rows[t].look.bg,
        None => Some(Shade::Green),
    };
    ListPane {
        title: String::from_str(path),
        rows,
        selected,
        highlight: Look { fg, bg: Some(Shade::White), bold: true },
    }
}

/// The tab titles of a list of patches.
fn tab_titles(patches: &Vec<u8>) -> (tabs: Vec<String>)
    ensures
        texts(tabs@) == patch_texts(patches@),
{
    let mut tabs: Vec<String> = Vec::new();
    let mut i: usize = 0;
    while i < patches.len()
        invariant
            i <= patches.len(),
            texts(tabs@) == patch_texts(patches@).take(i as int),
        decreases patches.len() - i,
    {
        let title = decimal_text(patches[i] as u64);
        let ghost titled = texts(tabs@);
        tabs.push(title);
        assert(titled.push(decimal(patches[i as int] as nat)) =~= patch_texts(patches@).take(
            i + 1,
        ));
        i += 1;
    }
    tabs
}

/// The detail pane, for the text of the selected log (`None` where the log
/// cannot be read). No pane where no run is selected.
pub fn render_selected_item(
    store: &ResultStore,
    nav: &Navigation,
    path: &str,
    log: Option<&str>,
) -> (pane: Option<DetailPane>)
    ensures
        (match pane {
            Some(d) => Some(d@),
            None => None,
        }) == detail_pane(store@, *nav, path@, text_of(log)),
{
    match find_selected_run(store, nav) {
        Some((test, patch)) => {
            let patches = store.patches_sorted(test.as_str());
            let passed = match store.exit_code(test.as_str(), patch) {
                Some(code) => code == 0,
                None => false,
            };
            let text = match log {
                Some(t) => String::from_str(t),
                None => {
                    let mut t = String::from_str("Cannot read ");
                    t.append(log_file_text(path, patch, test.as_str()).as_str());
                    t
                },
            };
            let lines = count_lines(text.as_str());
            let selected_tab: usize = match nav.selected_patch_index {
                Some(p) => p,
                None => 0,
            };
            Some(
                DetailPane {
                    tabs: tab_titles(&patches),
                    selected_tab,
                    tab_highlight: Look {
                        fg: Some(
                            if passed {
                                Shade::Green
                            } else {
                                Shade::Red
                            },
                        ),
                        bg: None,
                        bold: false,
                    },
                    header: log_part_text(patch, test.as_str()),
                    text,
                    first_line: nav.first_line(lines),
                },
            )
        },
        None => None,
    }
}

/// The frame for the current state.
pub fn render(store: &ResultStore, nav: &Navigation, path: &str, log: Option<&str>) -> (screen:
    Screen)
    ensures
        screen@ == screen_of(store@, *nav, path@, text_of(log)),
{
    Screen {
        list: render_list(store, nav, path),
        detail: render_selected_item(store, nav, path, log),
        footer: String::from_str("Use: arrows, ENTER/BACKSPC, q"),
    }
}

} // verus!
