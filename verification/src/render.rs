//! Line-grid render planner: maps a ten-slot display snapshot to draw
//! commands against an abstract drawable surface.
//!
//! The static layout (line-number labels and separator rules) is drawn once,
//! on the first frame only.  On every frame each line's text region is
//! cleared to background and the line's text, if present, is fully redrawn;
//! there is no diffing against the previous frame.

use vstd::prelude::*;

use crate::decimal::dec_repr;
use crate::decimal::itoa;
use crate::mailbox::DisplayLineTable;
use crate::mailbox::DISPLAY_LINES;

verus! {

#[derive(Debug, PartialEq, Eq, Structural, Clone, Copy)]
pub enum DrawColor {
    White,
    Blue,
    Black,
    Red,
}

/// One drawing instruction for the abstract surface.
pub enum DrawCommand {
    Text { x: i32, y: i32, color: DrawColor, text: Vec<u8> },
    Line { x0: i32, y0: i32, x1: i32, y1: i32, color: DrawColor, stroke: u32 },
    FillRect { x: i32, y: i32, width: u32, height: u32, color: DrawColor },
}

/// The mathematical image of a drawing instruction.
pub enum DrawOp {
    Text { x: int, y: int, color: DrawColor, text: Seq<u8> },
    Line { x0: int, y0: int, x1: int, y1: int, color: DrawColor, stroke: int },
    FillRect { x: int, y: int, width: int, height: int, color: DrawColor },
}

impl View for DrawCommand {
    type V = DrawOp;

    open spec fn view(&self) -> DrawOp {
        match *self {
            DrawCommand::Text { x, y, color, text } => DrawOp::Text {
                x: x as int,
                y: y as int,
                color,
                text: text@,
            },
            DrawCommand::Line { x0, y0, x1, y1, color, stroke } => DrawOp::Line {
                x0: x0 as int,
                y0: y0 as int,
                x1: x1 as int,
                y1: y1 as int,
                color,
                stroke: stroke as int,
            },
            DrawCommand::FillRect { x, y, width, height, color } => DrawOp::FillRect {
                x: x as int,
                y: y as int,
                width: width as int,
                height: height as int,
                color,
            },
        }
    }
}

/// The views of a command list.
pub open spec fn cmd_views(s: Seq<DrawCommand>) -> Seq<DrawOp> {
    s.map_values(|c: DrawCommand| c@)
}

/// The draw operations of one line: on the first frame its static label and
/// separator rule, then always the background clear of its text region, then
/// the text itself when the slot is filled.
pub open spec fn line_ops(slot: Option<(Seq<u8>, bool)>, index: int, first_draw: bool) -> Seq<
    DrawOp,
> {
    let y = 12 * (index + 1) + 1;
    (if first_draw {
        seq![
            DrawOp::Text { x: 0, y, color: DrawColor::White, text: dec_repr(index + 1) },
            DrawOp::Line {
                x0: 2,
                y0: y + 2,
                x1: 125,
                y1: y + 2,
                color: DrawColor::Blue,
                stroke: 1,
            },
        ]
    } else {
        Seq::empty()
    }) + seq![
        DrawOp::FillRect { x: 15, y: y - 8, width: 113, height: 10, color: DrawColor::Black },
    ] + (match slot {
        Some(t) => seq![DrawOp::Text { x: 15, y, color: DrawColor::Red, text: t.0 }],
        None => Seq::empty(),
    })
}

/// The draw operations of the first `n` lines, in line order.
pub open spec fn plan_upto(
    lines: Seq<Option<(Seq<u8>, bool)>>,
    n: int,
    first_draw: bool,
) -> Seq<DrawOp>
    decreases n,
{
    if n <= 0 {
        Seq::empty()
    } else {
        plan_upto(lines, n - 1, first_draw) + line_ops(lines[n - 1], n - 1, first_draw)
    }
}

/// The draw operations of a whole snapshot.
pub open spec fn spec_render_plan(
    lines: Seq<Option<(Seq<u8>, bool)>>,
    first_draw: bool,
) -> Seq<DrawOp> {
    plan_upto(lines, DISPLAY_LINES as int, first_draw)
}

proof fn lemma_cmd_views_push(s: Seq<DrawCommand>, c: DrawCommand)
    ensures
        cmd_views(s.push(c)) == cmd_views(s) + seq![c@],
{
    assert(cmd_views(s.push(c)) =~~= cmd_views(s) + seq![c@]);
}

/// Compute the draw commands for one snapshot.
#[verifier::loop_isolation(false)]
pub fn render_plan(table: &DisplayLineTable, first_draw: bool) -> (cmds: Vec<DrawCommand>)
    requires
        table.wf(),
    ensures
        cmd_views(cmds@) == spec_render_plan(table@, first_draw),
{
    let mut cmds: Vec<DrawCommand> = Vec::new();
    let mut i: usize = 0;
    proof {
        assert(cmd_views(cmds@) =~~= plan_upto(table@, 0, first_draw));
    }
    while i < DISPLAY_LINES
        invariant
            i <= DISPLAY_LINES,
            cmd_views(cmds@) == plan_upto(table@, i as int, first_draw),
        decreases DISPLAY_LINES - i,
    {
        let idx: i32 = i as i32;
        let y: i32 = 12 * (idx + 1) + 1;
        let ghost cv0 = cmds@;
        if first_draw {
            let num = itoa(idx + 1);
            let label = DrawCommand::Text { x: 0, y, color: DrawColor::White, text: num };
            proof {
                lemma_cmd_views_push(cmds@, label);
            }
            cmds.push(label);
            let rule = DrawCommand::Line {
                x0: 2,
                y0: y + 2,
                x1: 125,
                y1: y + 2,
                color: DrawColor::Blue,
                stroke: 1,
            };
            proof {
                lemma_cmd_views_push(cmds@, rule);
            }
            cmds.push(rule);
        }
        let wipe = DrawCommand::FillRect {
            x: 15,
            y: y - 8,
            width: 113,
            height: 10,
            color: DrawColor::Black,
        };
        proof {
            lemma_cmd_views_push(cmds@, wipe);
        }
        cmds.push(wipe);
        match table.get_line(i) {
            Some(t) => {
                let text = t.0.clone();
                proof {
                    assert(text@ =~= t.0@);
                }
                let body = DrawCommand::Text { x: 15, y, color: DrawColor::Red, text };
                proof {
                    lemma_cmd_views_push(cmds@, body);
                }
                cmds.push(body);
            },
            None => {},
        }
        proof {
            assert(cmd_views(cmds@) =~~= cmd_views(cv0) + line_ops(
                table@[i as int],
                i as int,
                first_draw,
            ));
        }
        i += 1;
    }
    cmds
}

} // verus!
