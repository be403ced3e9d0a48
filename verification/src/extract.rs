use vstd::prelude::*;
use vstd::string::*;
use crate::dom::{
    doc_text_of, first_attr, first_attr_of, fragment_text, select_html, selected_html_of,
};
use crate::models::{Course, CourseView};
use crate::page::{
    PageCell, PageCellView, PageHeading, PageHeadingView, PageLink, PageLinkView, PageModel,
    PageModelView, PageRow, PageRowView, PageTable, PageTableView,
};
use crate::points::{parse_points, parse_points_spec};
use crate::text::{chars_of, contains_sub, find_sub_lit, find_sub_spec, string_of, sub_chars,
    trim_chars, trim_spec};

verus! {

/// How a cell's text splits into a course code and a name: at the first
/// " - " of the trimmed text, both sides trimmed again; with no such
/// separator the whole trimmed text is the code and the name is empty.
pub open spec fn course_text_spec(text: Seq<char>) -> (Seq<char>, Seq<char>) {
    let t = trim_spec(text);
    match find_sub_spec(t, " - "@) {
        Some(p) => (trim_spec(t.take(p)), trim_spec(t.skip(p + 3))),
        None => (t, Seq::empty()),
    }
}

/// Splits a cell's text into course code and name.
pub fn parse_course_text(text: &str) -> (r: (String, String))
    ensures
        r.0@ == course_text_spec(text@).0,
        r.1@ == course_text_spec(text@).1,
{
    let cs = chars_of(text);
    let t = trim_chars(&cs);
    let n: usize = t.len();
    match find_sub_lit(&t, " - ") {
        Some(p) => {
            proof {
                reveal_strlit(" - ");
            }
            let code = string_of(&trim_chars(&sub_chars(&t, 0, p)));
            let name = string_of(&trim_chars(&sub_chars(&t, p + 3, n)));
            proof {
                assert(t@.subrange(0, p as int) =~= t@.take(p as int));
                assert(t@.subrange(p as int + 3, n as int) =~= t@.skip(p as int + 3));
            }
            (code, name)
        },
        None => {
            let code = string_of(&t);
            (code, String::new())
        },
    }
}

/// Whether a heading names a faculty section: its identifier is not a
/// contact or question marker and its text is not blank.
pub open spec fn heading_kept(h: PageHeadingView) -> bool {
    &&& !contains_sub(h.id, "sporsmal"@)
    &&& !contains_sub(h.id, "kontakt"@)
    &&& trim_spec(h.text).len() > 0
}

/// The ordered faculty index of the page: the trimmed text of each kept
/// heading, in document order.
pub open spec fn faculties_of(hs: Seq<PageHeadingView>) -> Seq<Seq<char>>
    decreases hs.len(),
{
    if hs.len() == 0 {
        Seq::empty()
    } else {
        faculties_of(hs.drop_last()) + if heading_kept(hs.last()) {
            seq![trim_spec(hs.last().text)]
        } else {
            Seq::empty()
        }
    }
}

/// The course a row yields, if any: a row needs at least two cells, a
/// nonempty code from the first cell (through its link if it has one),
/// and readable points in the second.
pub open spec fn row_course_spec(row: PageRowView, faculty: Seq<char>) -> Option<CourseView> {
    if row.cells.len() < 2 {
        Option::<CourseView>::None
    } else {
        let cell0 = row.cells[0];
        let url = match cell0.link {
            Some(l) => l.href,
            None => Seq::empty(),
        };
        let t = match cell0.link {
            Some(l) => l.text,
            None => cell0.text,
        };
        let ct = course_text_spec(t);
        if ct.0.len() == 0 {
            Option::<CourseView>::None
        } else {
            match parse_points_spec(row.cells[1].text) {
                Some(p) => Some(
                    CourseView { code: ct.0, name: ct.1, points: p, url: url, faculty: faculty },
                ),
                None => Option::<CourseView>::None,
            }
        }
    }
}

/// The courses of one table, in row order.
pub open spec fn table_courses_spec(rows: Seq<PageRowView>, faculty: Seq<char>) -> Seq<
    CourseView,
>
    decreases rows.len(),
{
    if rows.len() == 0 {
        Seq::empty()
    } else {
        table_courses_spec(rows.drop_last(), faculty) + match row_course_spec(
            rows.last(),
            faculty,
        ) {
            Some(c) => seq![c],
            None => Seq::empty(),
        }
    }
}

/// The courses of all tables: tables pair with faculties by position,
/// and only a table that yields at least one course consumes a faculty
/// slot; past the end of the index the faculty is the unknown marker.
pub open spec fn tables_courses_spec(
    ts: Seq<PageTableView>,
    facs: Seq<Seq<char>>,
    idx: int,
) -> Seq<CourseView>
    decreases ts.len(),
{
    if ts.len() == 0 {
        Seq::empty()
    } else {
        let fac = if idx < facs.len() {
            facs[idx]
        } else {
            "Unknown Faculty"@
        };
        let cs = table_courses_spec(ts[0].rows, fac);
        cs + tables_courses_spec(
            ts.drop_first(),
            facs,
            if cs.len() > 0 {
                idx + 1
            } else {
                idx
            },
        )
    }
}

/// Every course the page model yields, in table order and row order.
pub open spec fn extract_courses_spec(pm: PageModelView) -> Seq<CourseView> {
    tables_courses_spec(pm.tables, faculties_of(pm.headings), 0)
}

/// A row with fewer than two cells yields no course.
pub proof fn lemma_short_row_yields_nothing(row: PageRowView, faculty: Seq<char>)
    requires
        row.cells.len() < 2,
    ensures
        row_course_spec(row, faculty) is None,
{
}

fn row_course(row: &PageRow, faculty: &String) -> (r: Option<Course>)
    ensures
        match r {
            Some(c) => row_course_spec(row@, faculty@) == Some(c@),
            None => row_course_spec(row@, faculty@) is None,
        },
{
    if row.cells.len() < 2 {
        return None;
    }
    proof {
        assert(row@.cells[0] == row.cells@[0]@);
        assert(row@.cells[1] == row.cells@[1]@);
    }
    let (url, code_name) = match &row.cells[0].link {
        Some(l) => (l.href.clone(), parse_course_text(l.text.as_str())),
        None => (String::new(), parse_course_text(row.cells[0].text.as_str())),
    };
    let (code, name) = code_name;
    if code.as_str().unicode_len() == 0 {
        proof {
            assert(code@.len() == 0);
        }
        return None;
    }
    match parse_points(row.cells[1].text.as_str()) {
        Some(points) => Some(Course::new(code, name, points, url, faculty.clone())),
        None => None,
    }
}

fn table_courses(rows: &Vec<PageRow>, faculty: &String) -> (r: Vec<Course>)
    ensures
        r.deep_view() == table_courses_spec(rows.deep_view(), faculty@),
{
    let n: usize = rows.len();
    let mut r: Vec<Course> = Vec::new();
    proof {
        assert(rows.deep_view().take(0) =~= Seq::<PageRowView>::empty());
        assert(r.deep_view() =~= table_courses_spec(rows.deep_view().take(0), faculty@));
    }
    let mut i: usize = 0;
    while i < n
        invariant
            i <= n,
            n == rows@.len(),
            r.deep_view() == table_courses_spec(rows.deep_view().take(i as int), faculty@),
        decreases n - i,
    {
        let ghost rv = rows.deep_view();
        proof {
            assert(rv.take(i as int + 1).drop_last() =~= rv.take(i as int));
            assert(rv.take(i as int + 1).last() == rv[i as int]);
            assert(rv[i as int] == rows@[i as int]@);
        }
        match row_course(&rows[i], faculty) {
            Some(c) => {
                r.push(c);
                proof {
                    assert(r.deep_view() =~= table_courses_spec(
                        rv.take(i as int + 1),
                        faculty@,
                    ));
                }
            },
            None => {
                proof {
                    assert(r.deep_view() + Seq::<CourseView>::empty() =~= r.deep_view());
                    assert(r.deep_view() =~= table_courses_spec(
                        rv.take(i as int + 1),
                        faculty@,
                    ));
                }
            },
        }
        i = i + 1;
    }
    proof {
        assert(rows.deep_view().take(n as int) =~= rows.deep_view());
    }
    r
}

/// Extracts every course record a flattened page yields.
pub fn extract_courses(pm: &PageModel) -> (r: Vec<Course>)
    ensures
        r.deep_view() == extract_courses_spec(pm@),
{
    // The faculty index: the kept headings' trimmed text, in order.
    let nh: usize = pm.headings.len();
    let mut fac_names: Vec<String> = Vec::new();
    proof {
        assert(pm@.headings.take(0) =~= Seq::<PageHeadingView>::empty());
        assert(fac_names.deep_view() =~= faculties_of(pm@.headings.take(0)));
    }
    let mut i: usize = 0;
    while i < nh
        invariant
            i <= nh,
            nh == pm.headings@.len(),
            pm@.headings == pm.headings.deep_view(),
            fac_names.deep_view() == faculties_of(pm@.headings.take(i as int)),
        decreases nh - i,
    {
        let ghost hv = pm@.headings;
        proof {
            assert(hv.take(i as int + 1).drop_last() =~= hv.take(i as int));
            assert(hv.take(i as int + 1).last() == hv[i as int]);
            assert(hv[i as int] == pm.headings@[i as int]@);
        }
        let id_chars = chars_of(pm.headings[i].id.as_str());
        let skip_marker = match find_sub_lit(&id_chars, "sporsmal") {
            Some(_) => true,
            None => match find_sub_lit(&id_chars, "kontakt") {
                Some(_) => true,
                None => false,
            },
        };
        let text_trimmed = trim_chars(&chars_of(pm.headings[i].text.as_str()));
        if !skip_marker && text_trimmed.len() > 0 {
            fac_names.push(string_of(&text_trimmed));
            proof {
                assert(fac_names.deep_view() =~= faculties_of(hv.take(i as int + 1)));
            }
        } else {
            proof {
                assert(fac_names.deep_view() + Seq::<Seq<char>>::empty()
                    =~= fac_names.deep_view());
                assert(fac_names.deep_view() =~= faculties_of(hv.take(i as int + 1)));
            }
        }
        i = i + 1;
    }
    proof {
        assert(pm@.headings.take(nh as int) =~= pm@.headings);
    }
    let ghost facs = fac_names.deep_view();

    // Tables pair with faculties by position; only a table that yields a
    // course advances the position.
    let nt: usize = pm.tables.len();
    let mut out: Vec<Course> = Vec::new();
    let mut idx: usize = 0;
    proof {
        assert(pm@.tables.skip(0) =~= pm@.tables);
        assert(out.deep_view() =~= Seq::<CourseView>::empty());
        assert(Seq::<CourseView>::empty() + tables_courses_spec(pm@.tables, facs, 0)
            =~= tables_courses_spec(pm@.tables, facs, 0));
    }
    let mut j: usize = 0;
    while j < nt
        invariant
            j <= nt,
            idx <= j,
            nt == pm.tables@.len(),
            pm@.tables == pm.tables.deep_view(),
            facs == fac_names.deep_view(),
            out.deep_view() + tables_courses_spec(pm@.tables.skip(j as int), facs, idx as int)
                == tables_courses_spec(pm@.tables, facs, 0),
        decreases nt - j,
    {
        let ghost tv = pm@.tables;
        proof {
            assert(tv.skip(j as int)[0] == tv[j as int]);
            assert(tv.skip(j as int).drop_first() =~= tv.skip(j as int + 1));
            assert(tv[j as int] == pm.tables@[j as int]@);
        }
        let faculty: String = if idx < fac_names.len() {
            proof {
                assert(facs[idx as int] == fac_names@[idx as int]@);
            }
            fac_names[idx].clone()
        } else {
            "Unknown Faculty".to_owned()
        };
        let mut tcs = table_courses(&pm.tables[j].rows, &faculty);
        let got_any = tcs.len() > 0;
        let ghost tcs_v = tcs.deep_view();
        proof {
            assert(tcs_v.len() == tcs@.len());
        }
        let ghost out_pre = out.deep_view();
        out.append(&mut tcs);
        proof {
            assert(out.deep_view() =~= out_pre + tcs_v);
        }
        if got_any {
            idx = idx + 1;
        }
        proof {
            assert((out_pre + tcs_v) + tables_courses_spec(
                tv.skip(j as int + 1),
                facs,
                idx as int,
            ) =~= out_pre + (tcs_v + tables_courses_spec(
                tv.skip(j as int + 1),
                facs,
                idx as int,
            )));
        }
        j = j + 1;
    }
    proof {
        assert(pm@.tables.skip(nt as int) =~= Seq::<PageTableView>::empty());
        assert(tables_courses_spec(pm@.tables.skip(nt as int), facs, idx as int)
            =~= Seq::<CourseView>::empty());
        assert(out.deep_view() + Seq::<CourseView>::empty() =~= out.deep_view());
    }
    out
}

// The page model a given markup denotes, assembled from the trusted DOM
// queries. Each query's result is named, so the model - and through it
// the extracted courses - is a function of the markup alone.

/// The first match of the selector in the markup, if there is one.
pub open spec fn first_match_of(html: Seq<char>, sel: Seq<char>) -> Option<Seq<char>> {
    match selected_html_of(html, sel) {
        Some(v) => {
            if v.len() > 0 {
                Some(v[0])
            } else {
                Option::<Seq<char>>::None
            }
        },
        None => Option::<Seq<char>>::None,
    }
}

/// The serialized main content region of the page: the first match of
/// the candidate selectors, tried in order, with the document body as
/// the last resort.
pub open spec fn region_of(html: Seq<char>) -> Option<Seq<char>> {
    if first_match_of(html, "#vrtx-content"@) is Some {
        first_match_of(html, "#vrtx-content"@)
    } else if first_match_of(html, "main"@) is Some {
        first_match_of(html, "main"@)
    } else if first_match_of(html, "article"@) is Some {
        first_match_of(html, "article"@)
    } else if first_match_of(html, ".vrtx-content"@) is Some {
        first_match_of(html, ".vrtx-content"@)
    } else {
        first_match_of(html, "body"@)
    }
}

/// The heading a serialized heading element denotes, where its
/// identifier can be read back.
pub open spec fn heading_of(h: Seq<char>) -> Option<PageHeadingView> {
    match first_attr_of(h, "h2"@, "id"@) {
        Some(id) => Some(PageHeadingView { id: id, text: doc_text_of(h) }),
        None => Option::<PageHeadingView>::None,
    }
}

/// The headings the serialized heading elements denote, in order.
pub open spec fn headings_of(hs: Seq<Seq<char>>) -> Seq<PageHeadingView>
    decreases hs.len(),
{
    if hs.len() == 0 {
        Seq::empty()
    } else {
        headings_of(hs.drop_last()) + match heading_of(hs.last()) {
            Some(h) => seq![h],
            None => Seq::empty(),
        }
    }
}

/// The cell a serialized table cell denotes, read back in a table
/// context: its text, and its first hyperlink if it has one.
pub open spec fn cell_of(cell: Seq<char>) -> PageCellView {
    let w = "<table><tr>"@ + cell + "</tr></table>"@;
    PageCellView {
        text: doc_text_of(w),
        link: match first_match_of(w, "a"@) {
            Some(a) => Some(
                PageLinkView {
                    href: match first_attr_of(a, "a"@, "href"@) {
                        Some(h) => h,
                        None => Seq::empty(),
                    },
                    text: doc_text_of(a),
                },
            ),
            None => Option::<PageLinkView>::None,
        },
    }
}

/// The row a serialized table row denotes, read back in a table context.
pub open spec fn row_of(row: Seq<char>) -> PageRowView {
    let w = "<table>"@ + row + "</table>"@;
    PageRowView {
        cells: match selected_html_of(w, "td"@) {
            Some(cs) => Seq::new(cs.len(), |i: int| cell_of(cs[i])),
            None => Seq::empty(),
        },
    }
}

/// The table a serialized table denotes.
pub open spec fn table_of(t: Seq<char>) -> PageTableView {
    PageTableView {
        rows: match selected_html_of(t, "tr"@) {
            Some(rs) => Seq::new(rs.len(), |i: int| row_of(rs[i])),
            None => Seq::empty(),
        },
    }
}

/// The flattened model a page's markup denotes: the identified headings
/// and the tables of its main content region; nothing when no region is
/// found.
pub open spec fn page_model_of(html: Seq<char>) -> Option<PageModelView> {
    match region_of(html) {
        Some(region) => Some(
            PageModelView {
                headings: match selected_html_of(region, "h2[id]"@) {
                    Some(hs) => headings_of(hs),
                    None => Seq::empty(),
                },
                tables: match selected_html_of(region, "table"@) {
                    Some(ts) => Seq::new(ts.len(), |i: int| table_of(ts[i])),
                    None => Seq::empty(),
                },
            },
        ),
        None => Option::<PageModelView>::None,
    }
}

fn first_fragment(html: &str, sel: &str) -> (r: Option<String>)
    ensures
        match r {
            Some(s) => first_match_of(html@, sel@) == Some(s@),
            None => first_match_of(html@, sel@) is None,
        },
{
    match select_html(html, sel) {
        Some(mut v) => {
            if v.len() > 0 {
                proof {
                    assert(v.deep_view()[0] == v@[0]@);
                }
                let first = v.remove(0);
                Some(first)
            } else {
                None
            }
        },
        None => None,
    }
}

fn fragments_or_empty(html: &str, sel: &str) -> (r: Vec<String>)
    ensures
        r.deep_view() == match selected_html_of(html@, sel@) {
            Some(v) => v,
            None => Seq::<Seq<char>>::empty(),
        },
{
    match select_html(html, sel) {
        Some(v) => v,
        None => {
            let v: Vec<String> = Vec::new();
            proof {
                assert(v.deep_view() =~= Seq::<Seq<char>>::empty());
            }
            v
        },
    }
}

fn build_cell(cell: &String) -> (r: PageCell)
    ensures
        r@ == cell_of(cell@),
{
    let wrapped = String::from_str("<table><tr>").concat(cell.as_str()).concat("</tr></table>");
    proof {
        assert(wrapped@ =~= "<table><tr>"@ + cell@ + "</tr></table>"@);
    }
    let text = fragment_text(wrapped.as_str());
    let link = match first_fragment(wrapped.as_str(), "a") {
        Some(a) => {
            let href = match first_attr(a.as_str(), "a", "href") {
                Some(h) => h,
                None => String::new(),
            };
            let ltext = fragment_text(a.as_str());
            Some(PageLink { href, text: ltext })
        },
        None => None,
    };
    PageCell { text, link }
}

fn build_row(row: &String) -> (r: PageRow)
    ensures
        r@ == row_of(row@),
{
    let wrapped = String::from_str("<table>").concat(row.as_str()).concat("</table>");
    proof {
        assert(wrapped@ =~= "<table>"@ + row@ + "</table>"@);
    }
    let frags = fragments_or_empty(wrapped.as_str(), "td");
    let n: usize = frags.len();
    let mut cells: Vec<PageCell> = Vec::new();
    let mut i: usize = 0;
    while i < n
        invariant
            i <= n,
            n == frags@.len(),
            wrapped@ == "<table>"@ + row@ + "</table>"@,
            frags.deep_view() == (match selected_html_of(wrapped@, "td"@) {
                Some(cs) => cs,
                None => Seq::<Seq<char>>::empty(),
            }),
            cells@.len() == i,
            forall|j: int| 0 <= j < i ==> #[trigger] cells@[j]@ == cell_of(frags.deep_view()[j]),
        decreases n - i,
    {
        proof {
            assert(frags.deep_view()[i as int] == frags@[i as int]@);
        }
        cells.push(build_cell(&frags[i]));
        i = i + 1;
    }
    let r = PageRow { cells };
    proof {
        assert(r@.cells =~= row_of(row@).cells);
    }
    r
}

fn build_table(t: &String) -> (r: PageTable)
    ensures
        r@ == table_of(t@),
{
    let frags = fragments_or_empty(t.as_str(), "tr");
    let n: usize = frags.len();
    let mut rows: Vec<PageRow> = Vec::new();
    let mut i: usize = 0;
    while i < n
        invariant
            i <= n,
            n == frags@.len(),
            frags.deep_view() == (match selected_html_of(t@, "tr"@) {
                Some(rs) => rs,
                None => Seq::<Seq<char>>::empty(),
            }),
            rows@.len() == i,
            forall|j: int| 0 <= j < i ==> #[trigger] rows@[j]@ == row_of(frags.deep_view()[j]),
        decreases n - i,
    {
        proof {
            assert(frags.deep_view()[i as int] == frags@[i as int]@);
        }
        rows.push(build_row(&frags[i]));
        i = i + 1;
    }
    let r = PageTable { rows };
    proof {
        assert(r@.rows =~= table_of(t@).rows);
    }
    r
}

/// Flattens the page's main content region into the page model: the
/// region is the first match of the candidate selectors, tried in order
/// with the document body as the last resort; a page with none yields
/// nothing.
fn flatten_page(html: &str) -> (r: Option<PageModel>)
    ensures
        match r {
            Some(pm) => page_model_of(html@) == Some(pm@),
            None => page_model_of(html@) is None,
        },
{
    let region: String = match first_fragment(html, "#vrtx-content") {
        Some(x) => x,
        None => match first_fragment(html, "main") {
            Some(x) => x,
            None => match first_fragment(html, "article") {
                Some(x) => x,
                None => match first_fragment(html, ".vrtx-content") {
                    Some(x) => x,
                    None => match first_fragment(html, "body") {
                        Some(x) => x,
                        None => {
                            return None;
                        },
                    },
                },
            },
        },
    };
    proof {
        assert(region_of(html@) == Some(region@));
    }

    let hfrags = fragments_or_empty(region.as_str(), "h2[id]");
    let nh: usize = hfrags.len();
    let mut headings: Vec<PageHeading> = Vec::new();
    proof {
        assert(hfrags.deep_view().take(0) =~= Seq::<Seq<char>>::empty());
        assert(headings.deep_view() =~= headings_of(hfrags.deep_view().take(0)));
    }
    let mut i: usize = 0;
    while i < nh
        invariant
            i <= nh,
            nh == hfrags@.len(),
            region_of(html@) == Some(region@),
            hfrags.deep_view() == (match selected_html_of(region@, "h2[id]"@) {
                Some(hs) => hs,
                None => Seq::<Seq<char>>::empty(),
            }),
            headings.deep_view() == headings_of(hfrags.deep_view().take(i as int)),
        decreases nh - i,
    {
        let ghost hv = hfrags.deep_view();
        proof {
            assert(hv.take(i as int + 1).drop_last() =~= hv.take(i as int));
            assert(hv.take(i as int + 1).last() == hv[i as int]);
            assert(hv[i as int] == hfrags@[i as int]@);
        }
        match first_attr(hfrags[i].as_str(), "h2", "id") {
            Some(id) => {
                let text = fragment_text(hfrags[i].as_str());
                headings.push(PageHeading { id, text });
                proof {
                    assert(headings.deep_view() =~= headings_of(hv.take(i as int + 1)));
                }
            },
            None => {
                proof {
                    assert(headings.deep_view() + Seq::<PageHeadingView>::empty()
                        =~= headings.deep_view());
                    assert(headings.deep_view() =~= headings_of(hv.take(i as int + 1)));
                }
            },
        }
        i = i + 1;
    }
    proof {
        assert(hfrags.deep_view().take(nh as int) =~= hfrags.deep_view());
        match selected_html_of(region@, "h2[id]"@) {
            Some(hs) => {
                assert(hfrags.deep_view() == hs);
            },
            None => {
                assert(hfrags.deep_view() =~= Seq::<Seq<char>>::empty());
                assert(headings_of(hfrags.deep_view()) =~= Seq::<PageHeadingView>::empty());
            },
        }
    }

    let tfrags = fragments_or_empty(region.as_str(), "table");
    let nt: usize = tfrags.len();
    let mut tables: Vec<PageTable> = Vec::new();
    let mut j: usize = 0;
    while j < nt
        invariant
            j <= nt,
            nt == tfrags@.len(),
            region_of(html@) == Some(region@),
            headings.deep_view() == (match selected_html_of(region@, "h2[id]"@) {
                Some(hs) => headings_of(hs),
                None => Seq::<PageHeadingView>::empty(),
            }),
            tfrags.deep_view() == (match selected_html_of(region@, "table"@) {
                Some(ts) => ts,
                None => Seq::<Seq<char>>::empty(),
            }),
            tables@.len() == j,
            forall|k: int| 0 <= k < j ==> #[trigger] tables@[k]@ == table_of(
                tfrags.deep_view()[k],
            ),
        decreases nt - j,
    {
        proof {
            assert(tfrags.deep_view()[j as int] == tfrags@[j as int]@);
        }
        tables.push(build_table(&tfrags[j]));
        j = j + 1;
    }

    let pm = PageModel { headings, tables };
    proof {
        let target = page_model_of(html@)->Some_0;
        assert(pm@.headings =~= target.headings);
        assert(pm@.tables =~= target.tables) by {
            match selected_html_of(region@, "table"@) {
                Some(ts) => {
                    assert(tfrags.deep_view() == ts);
                },
                None => {
                    assert(tfrags.deep_view() =~= Seq::<Seq<char>>::empty());
                },
            }
        }
        assert(page_model_of(html@) == Some(pm@));
    }
    Some(pm)
}

/// Parses raw page markup into course records: exactly the records the
/// page's flattened model yields, and none when no content region is
/// found. Malformed input never fails.
pub fn parse_courses(html: &str) -> (r: Vec<Course>)
    ensures
        r.deep_view() == match page_model_of(html@) {
            Some(pm) => extract_courses_spec(pm),
            None => Seq::<CourseView>::empty(),
        },
{
    match flatten_page(html) {
        Some(pm) => {
            let r = extract_courses(&pm);
            r
        },
        None => {
            let r: Vec<Course> = Vec::new();
            proof {
                assert(r.deep_view() =~= Seq::<CourseView>::empty());
            }
            r
        },
    }
}

} // verus!
