use vstd::prelude::*;

verus! {

// The flattened shape of a scraped page: exactly what the record
// extractor reads, as plain values. The DOM walk that fills it is thin;
// every decision about headings, tables and rows is made on this model.

/// A hyperlink inside a table cell.
pub struct PageLink {
    pub href: String,
    pub text: String,
}

/// The mathematical value of a `PageLink`.
pub ghost struct PageLinkView {
    pub href: Seq<char>,
    pub text: Seq<char>,
}

impl View for PageLink {
    type V = PageLinkView;

    open spec fn view(&self) -> PageLinkView {
        PageLinkView { href: self.href@, text: self.text@ }
    }
}

impl DeepView for PageLink {
    type V = PageLinkView;

    open spec fn deep_view(&self) -> PageLinkView {
        self.view()
    }
}

/// One table cell: its text, and its first hyperlink if it has one.
pub struct PageCell {
    pub text: String,
    pub link: Option<PageLink>,
}

/// The mathematical value of a `PageCell`.
pub ghost struct PageCellView {
    pub text: Seq<char>,
    pub link: Option<PageLinkView>,
}

impl View for PageCell {
    type V = PageCellView;

    open spec fn view(&self) -> PageCellView {
        PageCellView {
            text: self.text@,
            link: match self.link {
                Some(l) => Some(l@),
                None => None,
            },
        }
    }
}

impl DeepView for PageCell {
    type V = PageCellView;

    open spec fn deep_view(&self) -> PageCellView {
        self.view()
    }
}

/// One table row, as its cells in order.
pub struct PageRow {
    pub cells: Vec<PageCell>,
}

/// The mathematical value of a `PageRow`.
pub ghost struct PageRowView {
    pub cells: Seq<PageCellView>,
}

impl View for PageRow {
    type V = PageRowView;

    open spec fn view(&self) -> PageRowView {
        PageRowView { cells: self.cells.deep_view() }
    }
}

impl DeepView for PageRow {
    type V = PageRowView;

    open spec fn deep_view(&self) -> PageRowView {
        self.view()
    }
}

/// One table, as its rows in order.
pub struct PageTable {
    pub rows: Vec<PageRow>,
}

/// The mathematical value of a `PageTable`.
pub ghost struct PageTableView {
    pub rows: Seq<PageRowView>,
}

impl View for PageTable {
    type V = PageTableView;

    open spec fn view(&self) -> PageTableView {
        PageTableView { rows: self.rows.deep_view() }
    }
}

impl DeepView for PageTable {
    type V = PageTableView;

    open spec fn deep_view(&self) -> PageTableView {
        self.view()
    }
}

/// A section heading that carries an identifier attribute.
pub struct PageHeading {
    pub id: String,
    pub text: String,
}

/// The mathematical value of a `PageHeading`.
pub ghost struct PageHeadingView {
    pub id: Seq<char>,
    pub text: Seq<char>,
}

impl View for PageHeading {
    type V = PageHeadingView;

    open spec fn view(&self) -> PageHeadingView {
        PageHeadingView { id: self.id@, text: self.text@ }
    }
}

impl DeepView for PageHeading {
    type V = PageHeadingView;

    open spec fn deep_view(&self) -> PageHeadingView {
        self.view()
    }
}

/// The flattened main-content region of a page: its identified headings
/// and its tables, each sequence in document order.
pub struct PageModel {
    pub headings: Vec<PageHeading>,
    pub tables: Vec<PageTable>,
}

/// The mathematical value of a `PageModel`.
pub ghost struct PageModelView {
    pub headings: Seq<PageHeadingView>,
    pub tables: Seq<PageTableView>,
}

impl View for PageModel {
    type V = PageModelView;

    open spec fn view(&self) -> PageModelView {
        PageModelView { headings: self.headings.deep_view(), tables: self.tables.deep_view() }
    }
}

} // verus!
