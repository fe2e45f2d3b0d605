//! What the history editor shows, and where.

use vstd::prelude::*;

use ratatui::layout::Rect;

use crate::commit::CommitId;
use crate::commit::CommitView;
use crate::commit::Id;
use crate::commit::ids;
use crate::histedit::graph::GraphRenderer;
use crate::histedit::graph::GraphRow;
use crate::histedit::graph::min_row_height;
use crate::histedit::graph::row_text;
use crate::histedit::graph::rows_drawn;
use crate::histedit::state::State;
use crate::histedit::state::StateView;
use crate::histedit::state::fresh;
use crate::histedit::state::law_fresh_keeps_what_was_given;
use crate::histedit::state::law_last_commit_counts;
use crate::histedit::styled::StyledSpan;
use crate::histedit::styled::line_views;
use crate::histedit::styled::styled_lines;
use crate::histedit::styled::styled_text;

verus! {

/// A rectangle of terminal cells.
#[derive(Clone, Copy, Debug, PartialEq, Eq, Structural)]
pub struct Area {
    pub x: u16,
    pub y: u16,
    pub width: u16,
    pub height: u16,
}

/// The direction in which an area is split.
#[derive(Clone, Copy, Debug, PartialEq, Eq, Structural)]
pub enum Direction {
    Horizontal,
    Vertical,
}

/// How much of an area a part of it takes.
#[derive(Clone, Copy, Debug, PartialEq, Eq, Structural)]
pub enum Constraint {
    /// A share of what is left over, by weight.
    Fill(u16),
    /// This many cells.
    Length(u16),
    /// At least this many cells.
    Min(u16),
}

/// The number between `low` and `high` that is closest to `value`.
pub open spec fn clamp(value: int, low: int, high: int) -> int {
    if value < low {
        low
    } else if value > high {
        high
    } else {
        value
    }
}

/// The columns of `width` that the graph takes: all of them up to ten, and
/// beyond that one in a hundred and one where this is more.
pub open spec fn graph_width(width: int) -> int {
    if width <= 10 {
        width
    } else if (width + 51) / 101 <= 10 {
        10
    } else {
        (width + 51) / 101
    }
}

/// The coordinate that is closest to `value`.
pub open spec fn coordinate(value: int) -> u16 {
    clamp(value, 0, 0xffff) as u16
}

impl Area {
    /// The area, moved as far as coordinates go.
    pub open spec fn moved(self, dx: int, dy: int) -> Area {
        Area {
            x: clamp(self.x + dx, 0, 0xffff - self.width) as u16,
            y: clamp(self.y + dy, 0, 0xffff - self.height) as u16,
            ..self
        }
    }

    /// The column to the right of the area.
    pub open spec fn right(self) -> u16 {
        coordinate(self.x + self.width)
    }

    /// The row below the area.
    pub open spec fn bottom(self) -> u16 {
        coordinate(self.y + self.height)
    }

    /// What two areas have in common.
    pub open spec fn common(self, other: Area) -> Area {
        let x = if self.x >= other.x {
            self.x
        } else {
            other.x
        };
        let y = if self.y >= other.y {
            self.y
        } else {
            other.y
        };
        let right = if self.right() <= other.right() {
            self.right()
        } else {
            other.right()
        };
        let bottom = if self.bottom() <= other.bottom() {
            self.bottom()
        } else {
            other.bottom()
        };
        Area { x, y, width: coordinate(right - x), height: coordinate(bottom - y) }
    }

    /// The number of lines that the last line takes: none where the area is
    /// empty.
    pub open spec fn last_lines(self) -> int {
        clamp(self.bottom() - self.y, 0, 1)
    }

    /// The last line of the area.
    pub open spec fn last_line(self) -> Area {
        Area {
            y: (self.bottom() - self.last_lines()) as u16,
            height: self.last_lines() as u16,
            ..self
        }
    }

    /// What is above the last line of the area.
    pub open spec fn above_last_line(self) -> Area {
        Area { height: (self.bottom() - self.y - self.last_lines()) as u16, ..self }
    }

    /// The columns on the left that the graph takes.
    pub open spec fn graph_part(self) -> Area {
        Area { width: graph_width(self.right() - self.x) as u16, ..self }
    }

    /// The columns to the right of the graph.
    pub open spec fn text_part(self) -> Area {
        let graph = graph_width(self.right() - self.x);
        Area {
            x: (self.x + graph) as u16,
            width: (self.right() - self.x - graph) as u16,
            ..self
        }
    }

    /// The two areas have no cell in common.
    pub open spec fn apart(self, other: Area) -> bool {
        self.common(other).width == 0 || self.common(other).height == 0
    }

    /// Every cell of the area is one of `other`.
    pub open spec fn inside(self, other: Area) -> bool {
        self.width > 0 && self.height > 0 ==> {
            &&& other.x <= self.x
            &&& self.x + self.width <= other.x + other.width
            &&& other.y <= self.y
            &&& self.y + self.height <= other.y + other.height
        }
    }

    /// `ratatui::layout::Rect::offset` moves a rectangle and keeps its size.
    /// Where an edge would leave the range of coordinates, the rectangle stops
    /// at the border of that range.
    #[verifier::external_body]
    fn offset(self, x: i32, y: i32) -> (area: Area)
        ensures
            area == self.moved(x as int, y as int),
    {
        let rect = Rect { x: self.x, y: self.y, width: self.width, height: self.height };
        let moved = rect.offset(ratatui::layout::Offset { x, y });
        Area { x: moved.x, y: moved.y, width: moved.width, height: moved.height }
    }

    /// `ratatui::layout::Rect::intersection` gives what two rectangles have in
    /// common. Without any common cell its size is zero in a direction.
    #[verifier::external_body]
    fn intersection(self, other: Area) -> (area: Area)
        ensures
            area == self.common(other),
    {
        let rect = Rect { x: self.x, y: self.y, width: self.width, height: self.height };
        let other = Rect { x: other.x, y: other.y, width: other.width, height: other.height };
        let common = rect.intersection(other);
        Area { x: common.x, y: common.y, width: common.width, height: common.height }
    }

    /// `ratatui::layout::Layout::split` splits a rectangle into one part per
    /// constraint. The parts keep the rectangle's place and size across the
    /// direction of the split, and do not leave it along that direction.
    ///
    /// A solver places them, by constraints of which the stronger one wins. A
    /// length is stronger than a share of the rest, so that one line at the
    /// end leaves all other lines to what fills the rest. A least size is
    /// stronger too, and shares by weight next to it, as if of weight one: ten
    /// columns beside a share of a hundred have all up to ten, and more only
    /// where one column in a hundred and one is more. Places are rounded to
    /// hundredths of a cell and then to cells. Of other lists of constraints
    /// it is left open where the parts lie.
    #[verifier::external_body]
    fn split(self, direction: Direction, constraints: &Vec<Constraint>) -> (areas: Vec<Area>)
        ensures
            areas@.len() == constraints@.len(),
            forall|i: int|
                0 <= i < areas@.len() ==> part_of(self, direction, #[trigger] areas@[i]),
            direction == Direction::Vertical && constraints@ == seq![
                Constraint::Fill(1),
                Constraint::Length(1),
            ] ==> areas@ == seq![self.above_last_line(), self.last_line()],
            direction == Direction::Horizontal && constraints@ == seq![
                Constraint::Min(10),
                Constraint::Fill(100),
            ] ==> areas@ == seq![self.graph_part(), self.text_part()],
    {
        let direction = match direction {
            Direction::Horizontal => ratatui::layout::Direction::Horizontal,
            Direction::Vertical => ratatui::layout::Direction::Vertical,
        };
        let constraints = constraints.iter().map(|constraint| match *constraint {
            Constraint::Fill(n) => ratatui::layout::Constraint::Fill(n),
            Constraint::Length(n) => ratatui::layout::Constraint::Length(n),
            Constraint::Min(n) => ratatui::layout::Constraint::Min(n),
        });
        let rect = Rect { x: self.x, y: self.y, width: self.width, height: self.height };
        let split = ratatui::layout::Layout::new(direction, constraints).split(rect);
        split.iter().map(|r| Area { x: r.x, y: r.y, width: r.width, height: r.height }).collect()
    }
}

/// A part of an area that was split in the given direction keeps the place and
/// the size of the area across it, and does not leave the area along it.
pub open spec fn part_of(area: Area, direction: Direction, part: Area) -> bool {
    match direction {
        Direction::Horizontal => {
            &&& part.y == area.y
            &&& part.height == area.height
            &&& area.x <= part.x
            &&& part.x + part.width <= area.right()
        },
        Direction::Vertical => {
            &&& part.x == area.x
            &&& part.width == area.width
            &&& area.y <= part.y
            &&& part.y + part.height <= area.bottom()
        },
    }
}

/// The number of lines that a text takes on the screen. A line feed ends a
/// line, and the empty text takes one line.
pub open spec fn line_count(text: Seq<char>) -> nat {
    let ended = text.filter(|c: char| c == '\n').len();
    if text.len() == 0 {
        1
    } else if text.last() == '\n' {
        ended
    } else {
        ended + 1
    }
}

/// `ratatui::text::Text::from` breaks a text into lines, as `str::lines` does,
/// and `Text::height` is their number. The empty text has one line.
#[verifier::external_body]
fn text_height(text: &str) -> (height: usize)
    ensures
        height == line_count(text@),
{
    ratatui::text::Text::from(text).height()
}

/// A row of the screen: a commit, its part of the graph, its description, and
/// where these go.
pub struct Row {
    pub id: CommitId,
    pub graph: String,
    pub description: Vec<Vec<StyledSpan>>,
    pub area: Area,
    pub graph_area: Area,
    pub text_area: Area,
}

/// What is on the screen.
pub struct Layout {
    pub main_area: Area,
    pub help_area: Area,
    pub rows: Vec<Row>,
}

/// The rows of the graph, in the order in which commits are shown.
pub open spec fn graph_rows(state: StateView) -> Seq<GraphRow> {
    state.current_order.map_values(
        |id: Id| (id, state.parents[id], "\u{25cb}"@, ""@),
    )
}

/// The graph of row `i`.
pub open spec fn graph_text(state: StateView, i: int) -> Seq<char> {
    row_text(2, graph_rows(state).take(i), graph_rows(state)[i])
}

/// Where row `i` goes. The first one has the whole of the main area, and each
/// leaves to the next what is below its graph.
pub open spec fn row_area(state: StateView, main: Area, i: int) -> Area
    decreases i,
{
    if i <= 0 {
        main
    } else {
        let above = row_area(state, main, i - 1);
        above.moved(0, line_count(graph_text(state, i - 1)) as i32 as int).common(main)
    }
}

/// Row `i` is the one that the state calls for, with the descriptions of the
/// commits that are shown being formatted like this.
pub open spec fn row_fits(
    state: StateView,
    formatted: Seq<Vec<u8>>,
    main: Area,
    i: int,
    row: Row,
) -> bool {
    &&& row.id@ == state.current_order[i]
    &&& row.graph@ == graph_text(state, i)
    &&& line_views(row.description@) == styled_lines(formatted[i]@)
    &&& row.area == row_area(state, main, i)
    &&& row.graph_area == row.area.graph_part()
    &&& row.text_area == row.area.text_part()
}

/// Lays out the rows of the screen in the main area, given the formatted
/// description of each commit that is shown.
pub fn lay_out_rows(state: &State, formatted: &Vec<Vec<u8>>, main: Area) -> (rows: Vec<Row>)
    requires
        state.wf(),
        formatted.len() == state@.current_order.len(),
    ensures
        rows.len() == state@.current_order.len(),
        forall|i: int|
            0 <= i < rows.len() ==> row_fits(
                state@,
                formatted@,
                main,
                i,
                #[trigger] rows[i],
            ),
{
    let ghost all = graph_rows(state@);
    let mut renderer = GraphRenderer::new(2);
    let mut columns: Vec<Constraint> = Vec::new();
    columns.push(Constraint::Min(10));
    columns.push(Constraint::Fill(100));
    assert(columns@ =~= seq![Constraint::Min(10), Constraint::Fill(100)]);
    let mut rows: Vec<Row> = Vec::new();
    let mut area: Area = main;
    assert(all.take(0) =~= Seq::<GraphRow>::empty());
    let mut i: usize = 0;
    while i < state.current_order.len()
        invariant
            i <= state.current_order.len(),
            state.wf(),
            formatted.len() == state@.current_order.len(),
            all == graph_rows(state@),
            columns@ == seq![Constraint::Min(10), Constraint::Fill(100)],
            rows_drawn(renderer) == all.take(i as int),
            min_row_height(renderer) == 2,
            area == row_area(state@, main, i as int),
            rows.len() == i,
            forall|j: int|
                0 <= j < i ==> row_fits(state@, formatted@, main, j, #[trigger] rows[j]),
        decreases state.current_order.len() - i,
    {
        let areas = area.split(Direction::Horizontal, &columns);
        let id: &CommitId = &state.current_order[i];
        proof {
            assert(state@.current_order[i as int] == id@);
            assert(state@.current_order.to_set().contains(id@));
            assert(state@.parents.contains_key(id@));
        }
        let parents: &Vec<CommitId> = state.parents.get(id).unwrap();
        let graph = renderer.next_row(id, parents, "\u{25cb}", "");
        proof {
            assert(ids(parents@) == state@.parents[id@]);
            assert(all.take(i + 1) =~= all.take(i as int).push(all[i as int]));
        }
        let height: usize = text_height(graph.as_str());
        let next = area.offset(0, height as i32).intersection(main);
        rows.push(
            Row {
                id: id.clone(),
                graph,
                description: styled_text(&formatted[i]),
                area,
                graph_area: areas[0],
                text_area: areas[1],
            },
        );
        area = next;
        i += 1;
    }
    rows
}

/// Lays out the screen: a line of help at the end, and rows of commits in the
/// lines above it. The formatted description of each commit that is shown is given.
pub fn lay_out(state: &State, formatted: &Vec<Vec<u8>>, screen: Area) -> (layout: Layout)
    requires
        state.wf(),
        formatted.len() == state@.current_order.len(),
    ensures
        layout.main_area == screen.above_last_line(),
        layout.help_area == screen.last_line(),
        layout.rows.len() == state@.current_order.len(),
        forall|i: int|
            0 <= i < layout.rows.len() ==> row_fits(
                state@,
                formatted@,
                layout.main_area,
                i,
                #[trigger] layout.rows[i],
            ),
{
    let mut parts: Vec<Constraint> = Vec::new();
    parts.push(Constraint::Fill(1));
    parts.push(Constraint::Length(1));
    assert(parts@ =~= seq![Constraint::Fill(1), Constraint::Length(1)]);
    let areas = screen.split(Direction::Vertical, &parts);
    let rows = lay_out_rows(state, formatted, areas[0]);
    Layout { main_area: areas[0], help_area: areas[1], rows }
}

/// Nothing of a row takes a cell outside of the main area.
pub proof fn law_rows_stay_inside(
    state: StateView,
    formatted: Seq<Vec<u8>>,
    main: Area,
    i: int,
    row: Row,
)
    requires
        row_fits(state, formatted, main, i, row),
    ensures
        row.area.inside(main),
        row.graph_area.inside(main),
        row.text_area.inside(main),
{
}

/// No row takes a cell of the line of help, however many there are.
pub proof fn law_rows_leave_the_help_alone(
    state: StateView,
    formatted: Seq<Vec<u8>>,
    screen: Area,
    i: int,
    row: Row,
)
    requires
        row_fits(state, formatted, screen.above_last_line(), i, row),
    ensures
        row.area.apart(screen.last_line()),
        row.graph_area.apart(screen.last_line()),
        row.text_area.apart(screen.last_line()),
{
    law_rows_stay_inside(state, formatted, screen.above_last_line(), i, row);
}

/// The graph and the text of a row lie side by side and fill it.
pub proof fn law_graph_and_text_fill_the_row(area: Area)
    ensures
        area.graph_part().apart(area.text_part()),
        area.graph_part().x == area.x,
        area.graph_part().right() == area.text_part().x,
        area.text_part().right() == area.right(),
{
}

/// The number of lines that the graph takes above row `i`.
pub open spec fn lines_above(state: StateView, i: int) -> nat
    decreases i,
{
    if i <= 0 {
        0
    } else {
        lines_above(state, i - 1) + line_count(graph_text(state, i - 1))
    }
}

/// There are coordinates for all that is above row `i`.
pub open spec fn coordinates_suffice(state: StateView, main: Area, i: int) -> bool {
    &&& i > 0 ==> main.x + main.width <= 0xffff
    &&& forall|k: int|
        0 <= k < i ==> {
            &&& main.y + main.height + line_count(#[trigger] graph_text(state, k)) <= 0xffff
            &&& main.y + lines_above(state, k) + line_count(graph_text(state, k)) <= 0xffff
        }
}

/// Rows are stacked: each starts below the graphs of all those above it, and
/// has what is left of the main area.
pub proof fn law_rows_are_stacked(state: StateView, main: Area, i: int)
    requires
        0 <= i,
        coordinates_suffice(state, main, i),
    ensures
        row_area(state, main, i) == (Area {
            y: (main.y + lines_above(state, i)) as u16,
            height: clamp(main.height - lines_above(state, i), 0, 0xffff) as u16,
            ..main
        }),
    decreases i,
{
    if i > 0 {
        law_rows_are_stacked(state, main, i - 1);
        assert(line_count(graph_text(state, i - 1)) <= 0xffff);
    }
}

/// Each row of the graph is that of the commit shown there, with all of its
/// parents as they are known, in their order, whether or not they are edited
/// themselves. Every commit has the same glyph, and no text beside it.
pub proof fn law_graph_has_every_parent(state: StateView, i: int)
    requires
        0 <= i < state.current_order.len(),
    ensures
        graph_rows(state).len() == state.current_order.len(),
        graph_rows(state)[i].0 == state.current_order[i],
        graph_rows(state)[i].1 == state.parents[state.current_order[i]],
        graph_rows(state)[i].2 == "\u{25cb}"@,
        graph_rows(state)[i].3 == ""@,
{
}

/// Before any edit the graph shows the commits in the order in which they were
/// given, each with the parents that it was given, external ones among them.
pub proof fn law_graph_of_given_commits(
    commits: Seq<CommitView>,
    external_children: Seq<CommitView>,
    i: int,
)
    requires
        0 <= i < commits.len(),
        forall|j: int| i < j < commits.len() ==> (#[trigger] commits[j]).id != commits[i].id,
    ensures
        graph_rows(fresh(commits, external_children)).len() == commits.len(),
        graph_rows(fresh(commits, external_children))[i].0 == commits[i].id,
        graph_rows(fresh(commits, external_children))[i].1 == commits[i].parent_ids,
{
    law_last_commit_counts(commits, i);
    law_fresh_keeps_what_was_given(commits, external_children, commits[i].id);
}

/// The rows of the graph before row `i`, each with its commit and all parents.
pub open spec fn rows_before(state: StateView, i: int) -> Seq<GraphRow> {
    Seq::new(
        i as nat,
        |k: int|
            (
                state.current_order[k],
                state.parents[state.current_order[k]],
                "\u{25cb}"@,
                ""@,
            ),
    )
}

/// A row shows its own commit: the graph below all rows before it, in rows two
/// lines high at least, and the description that was formatted for it. The
/// graph is at the left edge of the row, ten columns wide where the row has
/// room for them and no more than a thousand, and the description has the rest.
pub proof fn law_row_shows_its_commit(
    state: StateView,
    formatted: Seq<Vec<u8>>,
    main: Area,
    i: int,
    row: Row,
)
    requires
        0 <= i < state.current_order.len(),
        row_fits(state, formatted, main, i, row),
    ensures
        row.id@ == state.current_order[i],
        row.graph@ == row_text(
            2,
            rows_before(state, i),
            (
                state.current_order[i],
                state.parents[state.current_order[i]],
                "\u{25cb}"@,
                ""@,
            ),
        ),
        line_views(row.description@) == styled_lines(formatted[i]@),
        i == 0 ==> row.area == main,
        row.graph_area.x == row.area.x,
        row.graph_area.y == row.area.y && row.text_area.y == row.area.y,
        row.graph_area.height == row.area.height && row.text_area.height == row.area.height,
        row.area.x + row.area.width <= 0xffff ==> {
            &&& row.text_area.x == row.graph_area.x + row.graph_area.width
            &&& row.graph_area.width + row.text_area.width == row.area.width
            &&& 10 <= row.area.width <= 1000 ==> row.graph_area.width == 10
            &&& row.area.width < 10 ==> row.graph_area.width == row.area.width
            &&& row.area.width > 1000 ==> {
                &&& row.graph_area.width >= 10
                &&& 101 * row.graph_area.width <= row.area.width + 51 || row.graph_area.width == 10
                &&& row.area.width - 50 <= 101 * row.graph_area.width
            }
        },
{
    assert(graph_rows(state).take(i) =~= rows_before(state, i));
}

/// The line of help is the last one, and everything above it is left to the
/// commits.
pub proof fn law_help_is_one_line(screen: Area)
    requires
        screen.y + screen.height <= 0xffff,
    ensures
        screen.last_line().x == screen.x && screen.above_last_line().x == screen.x,
        screen.last_line().width == screen.width && screen.above_last_line().width == screen.width,
        screen.above_last_line().y == screen.y,
        screen.height > 0 ==> {
            &&& screen.last_line().height == 1
            &&& screen.last_line().y == screen.y + screen.height - 1
            &&& screen.above_last_line().height == screen.height - 1
        },
        screen.height == 0 ==> {
            &&& screen.last_line().height == 0
            &&& screen.above_last_line().height == 0
        },
{
}

/// A line feed ends a line: putting a line in front of a text makes it one line
/// higher. What is left without a line feed is a line of its own.
pub proof fn law_line_feeds_end_lines(line: Seq<char>, text: Seq<char>)
    requires
        !line.contains('\n'),
    ensures
        line_count(line) == 1,
        line_count(line.push('\n')) == 1,
        text.len() > 0 ==> line_count(line.push('\n') + text) == 1 + line_count(text),
{
    let feed = |c: char| c == '\n';
    lemma_no_feed(line);
    line.lemma_filter_push('\n', feed);
    lemma_filter_add(line.push('\n'), text, feed);
    if text.len() > 0 {
        assert((line.push('\n') + text).last() == text.last());
    }
    if line.len() > 0 {
        assert(line.contains(line.last()));
    }
}

proof fn lemma_no_feed(line: Seq<char>)
    requires
        !line.contains('\n'),
    ensures
        line.filter(|c: char| c == '\n').len() == 0,
{
    let feed = |c: char| c == '\n';
    let kept = line.filter(feed);
    if kept.len() > 0 {
        line.lemma_filter_pred(feed, 0);
        assert(kept.contains(kept[0]));
        line.lemma_filter_contains_rev(feed, kept[0]);
    }
}

proof fn lemma_filter_add(a: Seq<char>, b: Seq<char>, pred: spec_fn(char) -> bool)
    ensures
        (a + b).filter(pred) == a.filter(pred) + b.filter(pred),
    decreases b.len(),
{
    reveal(Seq::filter);
    if b.len() == 0 {
        assert(a + b =~= a);
        assert(a.filter(pred) + b.filter(pred) =~= a.filter(pred));
    } else {
        lemma_filter_add(a, b.drop_last(), pred);
        assert((a + b).drop_last() =~= a + b.drop_last());
        assert((a + b).filter(pred) =~= a.filter(pred) + b.filter(pred));
    }
}

} // verus!
