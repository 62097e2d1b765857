//! The decisions of the viewer window: which page is shown, which columns are
//! selected, and the texts of the sidebar and the pager. The window applies
//! them and reports back what the user did.
use vstd::prelude::*;
use crate::duckdb_service::{ColumnInfo, ParquetMetadata, copy_strings};
use crate::formatting::{PAGE_SIZE, human_size, human_size_text};
use crate::query::{ExportFormat, QueryInput, string_views};
use crate::text::{decimal, push_decimal};

verus! {

/// The paging and column selection of the open file.
pub struct ViewerState {
    pub offset: u64,
    pub selected_columns: Vec<String>,
}

/// The offset of the next page.
pub open spec fn next_offset(offset: u64) -> int {
    offset + PAGE_SIZE
}

/// The offset of the previous page: one page back, but not before the first.
pub open spec fn previous_offset(offset: u64) -> int {
    if offset >= PAGE_SIZE {
        offset - PAGE_SIZE
    } else {
        0
    }
}

/// Whether `c` is not the column `name`.
pub open spec fn other_than(name: Seq<char>) -> spec_fn(Seq<char>) -> bool {
    |c: Seq<char>| c != name
}

/// The selection after the check box of `name` became `active`: an activated
/// column is appended unless already selected; a deactivated one is removed.
pub open spec fn toggled(selected: Seq<Seq<char>>, name: Seq<char>, active: bool) -> Seq<Seq<char>> {
    if active {
        if selected.contains(name) {
            selected
        } else {
            selected.push(name)
        }
    } else {
        selected.filter(other_than(name))
    }
}

/// The column names of the metadata.
pub open spec fn column_names(columns: Seq<ColumnInfo>) -> Seq<Seq<char>> {
    columns.map_values(|c: ColumnInfo| c.name@)
}

/// `Page n`
pub open spec fn page_label_text(page: nat) -> Seq<char> {
    "Page "@ + decimal(page)
}

/// `n rows loaded on this page.`
pub open spec fn rows_loaded_text(rows: nat) -> Seq<char> {
    decimal(rows) + " rows loaded on this page."@
}

/// A count, or `unknown` where it could not be read.
pub open spec fn count_text(count: Option<u64>) -> Seq<char> {
    match count {
        Some(n) => decimal(n as nat),
        None => "unknown"@,
    }
}

/// The sidebar text of a file: its name, then its row count, column count,
/// row-group count and size.
pub open spec fn metadata_text(file_name: Seq<char>, metadata: ParquetMetadata) -> Seq<char> {
    file_name + "\n\nRows: "@ + count_text(metadata.row_count) + "\nColumns: "@ + decimal(
        metadata.columns@.len(),
    ) + "\nRow groups: "@ + count_text(metadata.row_groups) + "\nSize: "@ + human_size_text(
        metadata.file_size as nat,
    )
}

/// The label of a column's check box: `name: type`.
pub open spec fn column_label_text(column: ColumnInfo) -> Seq<char> {
    column.name@ + ": "@ + column.data_type@
}

impl ViewerState {
    /// The state before any file is open: first page, nothing selected.
    pub fn new() -> (s: Self)
        ensures
            s.offset == 0,
            s.selected_columns@.len() == 0,
    {
        ViewerState { offset: 0, selected_columns: Vec::new() }
    }

    /// A file is being opened: back to the first page.
    pub fn open_file(&mut self)
        ensures
            final(self).offset == 0,
            final(self).selected_columns@ == old(self).selected_columns@,
    {
        self.offset = 0;
    }

    /// The metadata of the open file was read: all its columns are selected.
    pub fn columns_loaded(&mut self, metadata: &ParquetMetadata)
        ensures
            final(self).offset == old(self).offset,
            string_views(final(self).selected_columns@) == column_names(metadata.columns@),
    {
        let mut names: Vec<String> = Vec::new();
        let mut i: usize = 0;
        while i < metadata.columns.len()
            invariant
                i <= metadata.columns@.len(),
                names@.len() == i,
                forall|j: int| 0 <= j < i ==> #[trigger] names@[j]@ == metadata.columns@[j].name@,
            decreases metadata.columns@.len() - i,
        {
            names.push(String::from_str(metadata.columns[i].name.as_str()));
            i = i + 1;
        }
        assert(string_views(names@) =~= column_names(metadata.columns@));
        self.selected_columns = names;
    }

    /// The filter was applied: back to the first page.
    pub fn restart(&mut self)
        ensures
            final(self).offset == 0,
            final(self).selected_columns@ == old(self).selected_columns@,
    {
        self.offset = 0;
    }

    /// One page back, but not before the first.
    pub fn previous_page(&mut self)
        ensures
            final(self).offset == previous_offset(old(self).offset),
            final(self).selected_columns@ == old(self).selected_columns@,
    {
        self.offset = self.offset.saturating_sub(PAGE_SIZE);
    }

    /// One page forward.
    pub fn next_page(&mut self)
        requires
            old(self).offset + PAGE_SIZE <= u64::MAX,
        ensures
            final(self).offset == next_offset(old(self).offset),
            final(self).selected_columns@ == old(self).selected_columns@,
    {
        self.offset = self.offset + PAGE_SIZE;
    }

    /// The check box of column `name` became `active`: the selection follows
    /// it and the preview goes back to the first page.
    pub fn toggle_column(&mut self, name: &str, active: bool)
        ensures
            final(self).offset == 0,
            string_views(final(self).selected_columns@) == toggled(
                string_views(old(self).selected_columns@),
                name@,
                active,
            ),
    {
        let ghost before = string_views(self.selected_columns@);
        let target = String::from_str(name);
        if active {
            let mut found = false;
            let mut i: usize = 0;
            while i < self.selected_columns.len()
                invariant
                    i <= self.selected_columns@.len(),
                    before == string_views(self.selected_columns@),
                    target@ == name@,
                    found <==> exists|j: int| 0 <= j < i && #[trigger] before[j] == name@,
                decreases self.selected_columns@.len() - i,
            {
                let same = self.selected_columns[i] == target;
                assert(before[i as int] == self.selected_columns@[i as int]@);
                if same {
                    found = true;
                }
                proof {
                    if !same {
                        assert forall|j: int| 0 <= j < i + 1 && #[trigger] before[j] == name@ implies j < i by {}
                    }
                }
                i = i + 1;
            }
            if !found {
                self.selected_columns.push(target);
                assert(string_views(self.selected_columns@) =~= before.push(name@));
            } else {
                proof {
                    let j = choose|j: int| 0 <= j < i && #[trigger] before[j] == name@;
                    assert(before[j] == name@);
                    assert(before.contains(name@));
                }
            }
            proof {
                if !found {
                    assert forall|j: int| 0 <= j < before.len() implies before[j] != name@ by {}
                }
            }
        } else {
            let mut kept: Vec<String> = Vec::new();
            let mut i: usize = 0;
            let ghost keep = other_than(name@);
            while i < self.selected_columns.len()
                invariant
                    i <= self.selected_columns@.len(),
                    before == string_views(self.selected_columns@),
                    keep == other_than(name@),
                    target@ == name@,
                    string_views(kept@) == before.take(i as int).filter(keep),
                decreases self.selected_columns@.len() - i,
            {
                proof {
                    assert(before.take(i + 1) =~= before.take(i as int).push(before[i as int]));
                    before.take(i as int).lemma_filter_push(before[i as int], keep);
                }
                if !(self.selected_columns[i] == target) {
                    let ghost prev = kept@;
                    kept.push(String::from_str(self.selected_columns[i].as_str()));
                    assert(string_views(kept@) =~= string_views(prev).push(before[i as int]));
                }
                i = i + 1;
            }
            assert(before.take(before.len() as int) =~= before);
            self.selected_columns = kept;
        }
        self.offset = 0;
    }

    /// The number of the page shown, counting from 1.
    pub fn page_number(&self) -> (n: u64)
        ensures
            n == self.offset / PAGE_SIZE + 1,
    {
        self.offset / PAGE_SIZE + 1
    }

    /// Whether there is a page before the one shown.
    pub fn can_go_back(&self) -> (b: bool)
        ensures
            b == (self.offset > 0),
    {
        self.offset > 0
    }

    /// The preview request for the selection with the filter `where_clause`.
    pub fn page_input(&self, where_clause: &str) -> (input: QueryInput)
        ensures
            match input {
                QueryInput::Filter { selected_columns, where_clause: w } => string_views(
                    selected_columns@,
                ) == string_views(self.selected_columns@) && w@ == where_clause@,
                QueryInput::Advanced { .. } => false,
            },
    {
        QueryInput::Filter {
            selected_columns: copy_strings(self.selected_columns.as_slice()),
            where_clause: String::from_str(where_clause),
        }
    }

    /// The pager label: `Page n`.
    pub fn page_label(&self) -> (r: String)
        ensures
            r@ == page_label_text((self.offset / PAGE_SIZE + 1) as nat),
    {
        let mut out = String::from_str("Page ");
        push_decimal(&mut out, self.page_number());
        out
    }
}

/// Whether a page that loaded `rows` rows may have a next one: it was full.
pub fn can_go_forward(rows: usize) -> (b: bool)
    ensures
        b == (rows == PAGE_SIZE),
{
    rows as u64 == PAGE_SIZE
}

/// The status line after a page of `rows` rows was loaded.
pub fn rows_loaded_message(rows: usize) -> (r: String)
    ensures
        r@ == rows_loaded_text(rows as nat),
{
    let mut out = String::new();
    push_decimal(&mut out, rows as u64);
    out.append(" rows loaded on this page.");
    out
}

fn push_count(out: &mut String, count: Option<u64>)
    ensures
        final(out)@ == old(out)@ + count_text(count),
{
    match count {
        Some(n) => push_decimal(out, n),
        None => out.append("unknown"),
    }
}

/// The sidebar text for the file named `file_name` with this metadata.
pub fn metadata_summary(file_name: &str, metadata: &ParquetMetadata) -> (r: String)
    ensures
        r@ == metadata_text(file_name@, *metadata),
{
    let mut out = String::from_str(file_name);
    out.append("\n\nRows: ");
    push_count(&mut out, metadata.row_count);
    out.append("\nColumns: ");
    push_decimal(&mut out, metadata.columns.len() as u64);
    out.append("\nRow groups: ");
    push_count(&mut out, metadata.row_groups);
    out.append("\nSize: ");
    let size = human_size(metadata.file_size);
    out.append(size.as_str());
    out
}

/// The label of a column's check box.
pub fn column_label(column: &ColumnInfo) -> (r: String)
    ensures
        r@ == column_label_text(*column),
{
    let mut out = String::from_str(column.name.as_str());
    out.append(": ");
    out.append(column.data_type.as_str());
    out
}

/// The file name an export dialog proposes for a format.
pub fn export_file_name(format: ExportFormat) -> (r: &'static str)
    ensures
        r@ == (match format {
            ExportFormat::Csv => "result.csv"@,
            ExportFormat::Parquet => "result.parquet"@,
        }),
{
    match format {
        ExportFormat::Csv => "result.csv",
        ExportFormat::Parquet => "result.parquet",
    }
}

/// Going one page forward and then one back returns to the same page.
pub proof fn lemma_next_then_previous(offset: u64)
    requires
        offset + PAGE_SIZE <= u64::MAX,
    ensures
        previous_offset(next_offset(offset) as u64) == offset,
{
}

/// Going back from the first page stays on the first page.
pub proof fn lemma_previous_from_first_page(offset: u64)
    requires
        offset < PAGE_SIZE,
    ensures
        previous_offset(offset) == 0,
{
}

proof fn lemma_filter_absent(s: Seq<Seq<char>>, name: Seq<char>)
    requires
        !s.contains(name),
    ensures
        s.filter(other_than(name)) == s,
    decreases s.len(),
{
    reveal(Seq::filter);
    if s.len() > 0 {
        assert(!s.drop_last().contains(name)) by {
            if s.drop_last().contains(name) {
                let j = choose|j: int| 0 <= j < s.drop_last().len() && s.drop_last()[j] == name;
                assert(s[j] == name);
            }
        }
        lemma_filter_absent(s.drop_last(), name);
        assert(s.last() != name) by {
            if s.last() == name {
                assert(s[s.len() - 1] == name);
            }
        }
        assert(s.drop_last().push(s.last()) =~= s);
    }
}

proof fn lemma_filter_unique(s: Seq<Seq<char>>, name: Seq<char>)
    requires
        s.no_duplicates(),
    ensures
        s.filter(other_than(name)).no_duplicates(),
    decreases s.len(),
{
    reveal(Seq::filter);
    if s.len() > 0 {
        let rest = s.drop_last();
        assert(rest.no_duplicates()) by {
            assert forall|i: int, j: int| 0 <= i < rest.len() && 0 <= j < rest.len() && i != j implies rest[i] != rest[j] by {
                assert(rest[i] == s[i] && rest[j] == s[j]);
            }
        }
        lemma_filter_unique(rest, name);
        let f = rest.filter(other_than(name));
        if other_than(name)(s.last()) {
            assert(!f.contains(s.last())) by {
                if f.contains(s.last()) {
                    rest.lemma_filter_contains_rev(other_than(name), s.last());
                    let j = choose|j: int| 0 <= j < rest.len() && rest[j] == s.last();
                    assert(s[j] == s[s.len() - 1]);
                }
            }
            let g = f.push(s.last());
            assert forall|i: int, j: int| 0 <= i < g.len() && 0 <= j < g.len() && i != j implies g[i] != g[j] by {
                if i < f.len() && j < f.len() {
                    assert(g[i] == f[i] && g[j] == f[j]);
                } else if i < f.len() {
                    assert(g[i] == f[i]);
                    assert(f.contains(f[i]));
                } else {
                    assert(g[j] == f[j]);
                    assert(f.contains(f[j]));
                }
            }
        }
    }
}

/// Toggling a column on and then off again, where it was not selected,
/// gives back the same selection.
pub proof fn lemma_toggle_on_then_off(selected: Seq<Seq<char>>, name: Seq<char>)
    requires
        !selected.contains(name),
    ensures
        toggled(toggled(selected, name, true), name, false) == selected,
{
    selected.lemma_filter_push(name, other_than(name));
    lemma_filter_absent(selected, name);
}

/// After a toggle the column is selected exactly when its box is active.
pub proof fn lemma_toggle_membership(selected: Seq<Seq<char>>, name: Seq<char>, active: bool)
    ensures
        toggled(selected, name, active).contains(name) == active,
{
    if active {
        if !selected.contains(name) {
            assert(selected.push(name)[selected.len() as int] == name);
        }
    } else {
        if selected.filter(other_than(name)).contains(name) {
            broadcast use vstd::seq_lib::group_filter_ensures;
            let j = choose|j: int| 0 <= j < selected.filter(other_than(name)).len() && selected.filter(other_than(name))[j] == name;
            assert(other_than(name)(selected.filter(other_than(name))[j]));
        }
    }
}

/// Toggles keep a selection free of repeated columns.
pub proof fn lemma_toggle_keeps_unique(selected: Seq<Seq<char>>, name: Seq<char>, active: bool)
    requires
        selected.no_duplicates(),
    ensures
        toggled(selected, name, active).no_duplicates(),
{
    if active {
        if !selected.contains(name) {
            let g = selected.push(name);
            assert forall|i: int, j: int| 0 <= i < g.len() && 0 <= j < g.len() && i != j implies g[i] != g[j] by {
                if i < selected.len() && j < selected.len() {
                    assert(g[i] == selected[i] && g[j] == selected[j]);
                } else if i < selected.len() {
                    assert(g[i] == selected[i]);
                } else {
                    assert(g[j] == selected[j]);
                }
            }
        }
    } else {
        lemma_filter_unique(selected, name);
    }
}

/// Paging keeps the offset on a page boundary: from a multiple of the page
/// size, the next and the previous page start at multiples of it too, and the
/// page at offset `k` pages is numbered `k + 1`.
pub proof fn lemma_offsets_stay_on_page_boundaries(offset: u64)
    requires
        offset % PAGE_SIZE == 0,
    ensures
        next_offset(offset) % (PAGE_SIZE as int) == 0,
        previous_offset(offset) % (PAGE_SIZE as int) == 0,
        offset / PAGE_SIZE * PAGE_SIZE == offset,
{
}


/// Deselecting a column works on each part of the selection alone: the
/// columns kept from `a + b` are those kept from `a`, then those kept from `b`.
pub proof fn lemma_deselect_splits(a: Seq<Seq<char>>, b: Seq<Seq<char>>, name: Seq<char>)
    ensures
        toggled(a + b, name, false) == toggled(a, name, false) + toggled(b, name, false),
{
    Seq::filter_distributes_over_add(a, b, other_than(name));
}

/// Deselecting a column drops that column and keeps any other.
pub proof fn lemma_deselect_one(c: Seq<char>, name: Seq<char>)
    ensures
        toggled(seq![c], name, false) == if c == name {
            Seq::<Seq<char>>::empty()
        } else {
            seq![c]
        },
{
    reveal(Seq::filter);
    let s = seq![c];
    assert(s.drop_last() =~= Seq::<Seq<char>>::empty());
    assert(s.drop_last().filter(other_than(name)) =~= Seq::<Seq<char>>::empty());
    if c != name {
        assert(Seq::<Seq<char>>::empty().push(c) =~= s);
    }
}

/// Deselecting a selected column removes it and keeps the other columns in
/// their order.
pub proof fn lemma_deselect_keeps_order(a: Seq<Seq<char>>, b: Seq<Seq<char>>, name: Seq<char>)
    requires
        !a.contains(name),
        !b.contains(name),
    ensures
        toggled(a + seq![name] + b, name, false) == a + b,
{
    lemma_deselect_splits(a + seq![name], b, name);
    lemma_deselect_splits(a, seq![name], name);
    lemma_deselect_one(name, name);
    lemma_filter_absent(a, name);
    lemma_filter_absent(b, name);
    assert(a + Seq::<Seq<char>>::empty() =~= a);
}

/// Selecting a column keeps the selection in front and in order: a column
/// already selected changes nothing, a new one comes last.
pub proof fn lemma_select_appends(selected: Seq<Seq<char>>, name: Seq<char>)
    ensures
        toggled(selected, name, true).take(selected.len() as int) == selected,
        toggled(selected, name, true).len() == selected.len() + if selected.contains(name) {
            0int
        } else {
            1int
        },
        !selected.contains(name) ==> toggled(selected, name, true).last() == name,
{
    assert(selected.take(selected.len() as int) =~= selected);
    assert(selected.push(name).take(selected.len() as int) =~= selected);
}

/// The shown count: the number, or `unknown` where it could not be read.
proof fn lemma_count_text(count: Option<u64>)
    ensures
        count_text(count) == match count {
            Some(n) => decimal(n as nat),
            None => "unknown"@,
        },
{
}

/// The sidebar starts with the file name, then its row count (or `unknown`),
/// then its number of columns.
pub proof fn lemma_summary_rows_and_columns(file_name: Seq<char>, metadata: ParquetMetadata)
    ensures
        ({
            let text = metadata_text(file_name, metadata);
            let head = file_name + "\n\nRows: "@ + match metadata.row_count {
                Some(r) => decimal(r as nat),
                None => "unknown"@,
            } + "\nColumns: "@ + decimal(metadata.columns@.len()) + "\nRow groups: "@;
            head.len() <= text.len() && text.subrange(0, head.len() as int) == head
        }),
{
    lemma_count_text(metadata.row_count);
    let text = metadata_text(file_name, metadata);
    let head = file_name + "\n\nRows: "@ + count_text(metadata.row_count) + "\nColumns: "@
        + decimal(metadata.columns@.len()) + "\nRow groups: "@;
    let tail = count_text(metadata.row_groups) + "\nSize: "@ + human_size_text(
        metadata.file_size as nat,
    );
    assert(text =~= head + tail);
    assert(text.subrange(0, head.len() as int) =~= head);
}

/// The sidebar ends with the metadata's own row-group count (or `unknown`)
/// and then the file size.
pub proof fn lemma_summary_row_groups_and_size(file_name: Seq<char>, metadata: ParquetMetadata)
    ensures
        ({
            let text = metadata_text(file_name, metadata);
            let tail = "\nRow groups: "@ + match metadata.row_groups {
                Some(g) => decimal(g as nat),
                None => "unknown"@,
            } + "\nSize: "@ + human_size_text(metadata.file_size as nat);
            tail.len() <= text.len() && text.skip(text.len() - tail.len()) == tail
        }),
{
    lemma_count_text(metadata.row_groups);
    let text = metadata_text(file_name, metadata);
    let head = file_name + "\n\nRows: "@ + count_text(metadata.row_count) + "\nColumns: "@
        + decimal(metadata.columns@.len());
    let tail = "\nRow groups: "@ + count_text(metadata.row_groups) + "\nSize: "@
        + human_size_text(metadata.file_size as nat);
    assert(text =~= head + tail);
    assert(text.skip(text.len() - tail.len()) =~= tail);
}

} // verus!
