//! What the history editor shows, and where.

use jj_commands::commit::Commit;
use jj_commands::commit::CommitId;
use jj_commands::histedit::screen::Area;
use jj_commands::histedit::screen::lay_out;
use jj_commands::histedit::screen::lay_out_rows;
use jj_commands::histedit::state::State;

fn id(name: char) -> CommitId {
    CommitId::new(name.to_string().into_bytes())
}

fn state(written: &[&str]) -> State {
    let commits = written
        .iter()
        .map(|text| {
            let mut names = text.chars();
            let own = id(names.next().unwrap());
            Commit::new(own, names.map(id).collect())
        })
        .collect();
    State::new(commits, vec![])
}

/// A description for each of so many commits.
fn plain(n: usize) -> Vec<Vec<u8>> {
    vec![b"text".to_vec(); n]
}

fn area(x: u16, y: u16, width: u16, height: u16) -> Area {
    Area { x, y, width, height }
}

#[test]
fn graph_is_drawn_row_by_row() {
    let rows = lay_out_rows(&state(&["cb", "ba", "a"]), &plain(3), area(0, 0, 80, 20));
    let graphs: Vec<&str> = rows.iter().map(|row| row.graph.as_str()).collect();
    assert_eq!(graphs, vec!["\u{25cb}\n\u{2502}\n", "\u{25cb}\n\u{2502}\n", "\u{25cb}\n\n"]);
    assert!(rows[1].id.same(&id('b')));
}

#[test]
fn graph_of_a_merge_branches() {
    let rows = lay_out_rows(&state(&["dbc", "ca", "ba", "a"]), &plain(4), area(0, 0, 80, 20));
    assert_eq!(rows[0].graph, "\u{25cb}\n\u{251c}\u{2500}\u{256e}\n");
    assert_eq!(rows[1].graph, "\u{2502} \u{25cb}\n\u{2502} \u{2502}\n");
}

#[test]
fn rows_follow_each_other() {
    let rows = lay_out_rows(&state(&["cb", "ba", "ar"]), &plain(3), area(3, 5, 80, 20));
    let areas: Vec<Area> = rows.iter().map(|row| row.area).collect();
    assert_eq!(areas, vec![area(3, 5, 80, 20), area(3, 7, 80, 18), area(3, 9, 80, 16)]);
}

#[test]
fn rows_below_the_screen_are_empty() {
    let rows = lay_out_rows(&state(&["dc", "cb", "ba", "ar"]), &plain(4), area(0, 0, 80, 3));
    let areas: Vec<Area> = rows.iter().map(|row| row.area).collect();
    assert_eq!(
        areas,
        vec![area(0, 0, 80, 3), area(0, 2, 80, 1), area(0, 4, 80, 0), area(0, 6, 80, 0)]
    );
}

#[test]
fn rows_stop_at_the_last_coordinate() {
    let rows = lay_out_rows(&state(&["ba", "ar"]), &plain(2), area(0, 65530, 10, 5));
    assert_eq!(rows[1].area, area(0, 65530, 10, 5));
}

/// The graph and the text of a row in this area.
fn columns(row: Area) -> (Area, Area) {
    let rows = lay_out_rows(&state(&["ba"]), &plain(1), row);
    (rows[0].graph_area, rows[0].text_area)
}

#[test]
fn graph_is_left_of_the_text() {
    assert_eq!(columns(area(2, 1, 80, 20)), (area(2, 1, 10, 20), area(12, 1, 70, 20)));
    assert_eq!(columns(area(0, 0, 11, 2)), (area(0, 0, 10, 2), area(10, 0, 1, 2)));
    assert_eq!(columns(area(0, 0, 10, 2)), (area(0, 0, 10, 2), area(10, 0, 0, 2)));
    assert_eq!(columns(area(5, 3, 4, 2)), (area(5, 3, 4, 2), area(9, 3, 0, 2)));
    assert_eq!(columns(area(5, 3, 0, 2)), (area(5, 3, 0, 2), area(5, 3, 0, 2)));
}

#[test]
fn graph_takes_its_share_of_a_wide_row() {
    let graph_width = |width: u16| columns(area(0, 0, width, 2)).0.width;
    assert_eq!(graph_width(1010), 10);
    assert_eq!(graph_width(1059), 10);
    assert_eq!(graph_width(1060), 11);
    assert_eq!(graph_width(1160), 11);
    assert_eq!(graph_width(1161), 12);
    assert_eq!(graph_width(65535), 649);
}

#[test]
fn columns_fill_rows_of_every_width() {
    for width in 0..1500u16 {
        let x = width % 97;
        let graph = match width {
            0..=10 => width,
            _ => 10.max((width + 51) / 101),
        };
        assert_eq!(
            columns(area(x, 0, width, 2)),
            (area(x, 0, graph, 2), area(x + graph, 0, width - graph, 2))
        );
    }
}

#[test]
fn columns_stop_at_the_last_coordinate() {
    assert_eq!(
        columns(area(65500, 0, 80, 2)),
        (area(65500, 0, 10, 2), area(65510, 0, 25, 2))
    );
}

#[test]
fn help_has_the_last_line() {
    let layout = lay_out(&state(&["ba", "ar"]), &plain(2), area(0, 0, 80, 24));
    assert_eq!(layout.main_area, area(0, 0, 80, 23));
    assert_eq!(layout.help_area, area(0, 23, 80, 1));
    assert_eq!(layout.rows.len(), 2);
    assert_eq!(layout.rows[0].area, layout.main_area);
    assert_eq!(layout.rows[1].area, area(0, 2, 80, 21));
}

#[test]
fn help_has_the_last_line_of_every_screen() {
    for height in 1..1000u16 {
        let y = height % 13;
        let layout = lay_out(&state(&["ba"]), &plain(1), area(1, y, 80, height));
        assert_eq!(layout.main_area, area(1, y, 80, height - 1));
        assert_eq!(layout.help_area, area(1, y + height - 1, 80, 1));
    }
    let layout = lay_out(&state(&["ba"]), &plain(1), area(0, 65530, 80, 24));
    assert_eq!(layout.main_area, area(0, 65530, 80, 4));
    assert_eq!(layout.help_area, area(0, 65534, 80, 1));
}

#[test]
fn commits_never_reach_the_help() {
    let layout = lay_out(
        &state(&["fe", "ed", "dc", "cb", "ba", "ar"]),
        &plain(6),
        area(0, 0, 80, 6),
    );
    assert_eq!(layout.help_area, area(0, 5, 80, 1));
    for (k, row) in layout.rows.iter().enumerate() {
        assert_eq!(row.area.y, 2 * k as u16);
        assert_eq!(row.area.height, 5u16.saturating_sub(row.area.y));
    }
}

#[test]
fn empty_screen_holds_nothing() {
    let layout = lay_out(&state(&["ba", "ar"]), &plain(2), area(0, 0, 0, 0));
    assert_eq!(layout.main_area, area(0, 0, 0, 0));
    assert_eq!(layout.help_area, area(0, 0, 0, 0));
    assert_eq!(layout.rows.len(), 2);
}

#[test]
fn descriptions_have_the_colors_of_their_escapes() {
    let formatted = vec![b"\x1b[31mred\x1b[0m plain\nnext".to_vec(), b"".to_vec()];
    let rows = lay_out_rows(&state(&["ba", "ar"]), &formatted, area(0, 0, 80, 20));
    let lines = &rows[0].description;
    assert_eq!(lines.len(), 2);
    let texts: Vec<&str> = lines[0].iter().map(|span| span.text.as_str()).collect();
    assert_eq!(texts, vec!["red", " plain"]);
    assert_eq!(lines[0][0].foreground.as_deref(), Some("Red"));
    assert_eq!(lines[0][0].background, None);
    assert_eq!((lines[0][0].added, lines[0][0].removed), (0, 0));
    assert_eq!(lines[0][1].foreground.as_deref(), Some("Reset"));
    assert_eq!(lines[1][0].text, "next");
    assert!(rows[1].description.iter().all(|line| line.is_empty()));
}
