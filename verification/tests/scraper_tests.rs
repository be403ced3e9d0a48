use uiobot::extract::{parse_course_text, parse_courses};
use uiobot::points::{parse_points, points_str};

#[test]
fn test_parse_course_text() {
    let (code, name) = parse_course_text("IN1000 - Introduksjon til programmering");
    assert_eq!(code, "IN1000");
    assert_eq!(name, "Introduksjon til programmering");

    let (code, name) = parse_course_text("IN1000");
    assert_eq!(code, "IN1000");
    assert_eq!(name, "");
}

#[test]
fn test_parse_points() {
    assert_eq!(parse_points("10"), Some(1000));
    assert_eq!(parse_points("2.5"), Some(250));
    assert_eq!(parse_points("2,5"), Some(250));
    assert_eq!(parse_points("  10  "), Some(1000));
    assert_eq!(parse_points("invalid"), None);
}

#[test]
fn test_parse_points_more_shapes() {
    assert_eq!(parse_points("0"), Some(0));
    assert_eq!(parse_points("7.50"), Some(750));
    assert_eq!(parse_points("-2.5"), Some(-250));
    assert_eq!(parse_points("+5"), Some(500));
    assert_eq!(parse_points(".5"), Some(50));
    assert_eq!(parse_points("5."), Some(500));
    assert_eq!(parse_points(""), None);
    assert_eq!(parse_points("."), None);
    assert_eq!(parse_points("1.2.3"), None);
}

#[test]
fn test_parse_courses_from_page() {
    let html = "<html><body><div id='vrtx-content'>\
        <h2 id='det-humanistiske-fakultet'>Det humanistiske fakultet</h2>\
        <table>\
        <tr><th>Emne</th><th>Studiepoeng</th></tr>\
        <tr><td><a href='/emne/HFLESER1031'>HFLESER1031 - Lesekurs</a></td><td>2,5</td></tr>\
        <tr><td>IN1000 - Intro</td><td>10</td></tr>\
        <tr><td>ONLYONECELL</td></tr>\
        <tr><td><a href='/emne/BAD'>BAD - Unreadable</a></td><td>not points</td></tr>\
        </table>\
        <h2 id='sporsmal-om-emner'>Questions about courses</h2>\
        </div></body></html>";
    let courses = parse_courses(html);
    assert_eq!(courses.len(), 2);

    assert_eq!(courses[0].code, "HFLESER1031");
    assert_eq!(courses[0].name, "Lesekurs");
    assert_eq!(courses[0].points, 250);
    assert_eq!(courses[0].url, "/emne/HFLESER1031");
    assert_eq!(courses[0].faculty, "Det humanistiske fakultet");

    assert_eq!(courses[1].code, "IN1000");
    assert_eq!(courses[1].name, "Intro");
    assert_eq!(courses[1].points, 1000);
    assert_eq!(courses[1].url, "");
    assert_eq!(courses[1].faculty, "Det humanistiske fakultet");
}

#[test]
fn test_parse_courses_positional_faculty_pairing() {
    // The first table yields nothing, so it must not consume a faculty
    // slot; the table after the last faculty gets the unknown marker.
    let html = "<html><body><div id='vrtx-content'>\
        <h2 id='fac-a'>Faculty A</h2>\
        <h2 id='fac-b'>Faculty B</h2>\
        <table><tr><td>X - Y</td><td>bad</td></tr></table>\
        <table><tr><td>AAA1000</td><td>5</td></tr></table>\
        <table><tr><td>BBB2000</td><td>5</td></tr></table>\
        <table><tr><td>CCC3000</td><td>5</td></tr></table>\
        </div></body></html>";
    let courses = parse_courses(html);
    assert_eq!(courses.len(), 3);
    assert_eq!(courses[0].code, "AAA1000");
    assert_eq!(courses[0].faculty, "Faculty A");
    assert_eq!(courses[1].code, "BBB2000");
    assert_eq!(courses[1].faculty, "Faculty B");
    assert_eq!(courses[2].code, "CCC3000");
    assert_eq!(courses[2].faculty, "Unknown Faculty");
}

#[test]
fn test_parse_courses_skips_contact_headings_and_blank_rows() {
    let html = "<html><body><main>\
        <h2 id='kontakt-oss'>Contact us</h2>\
        <h2 id='realfag'>Realfag</h2>\
        <table>\
        <tr><td>   </td><td>5</td></tr>\
        <tr><td>MAT1100 - Kalkulus</td><td>10</td></tr>\
        </table>\
        </main></body></html>";
    let courses = parse_courses(html);
    assert_eq!(courses.len(), 1);
    assert_eq!(courses[0].code, "MAT1100");
    assert_eq!(courses[0].faculty, "Realfag");
}

#[test]
fn test_parse_courses_empty_page() {
    let courses = parse_courses("");
    assert_eq!(courses.len(), 0);

    let courses = parse_courses("<html><body><p>No tables here.</p></body></html>");
    assert_eq!(courses.len(), 0);
}

#[test]
fn test_points_str_shapes() {
    assert_eq!(points_str(1000), "10");
    assert_eq!(points_str(250), "2.5");
    assert_eq!(points_str(255), "2.55");
    assert_eq!(points_str(205), "2.05");
    assert_eq!(points_str(0), "0");
    assert_eq!(points_str(-250), "-2.5");
}
