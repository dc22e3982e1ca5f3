//! The toolbar: which tool is selected, and where the tool icons stand.
use vstd::prelude::*;

use crate::mouse::{ButtonId, Clicked};
use crate::tools::Tools;
use crate::util::size::{HEIGHT, ICON};

verus! {

/// A tool as the toolbar shows it.
#[derive(Clone, Copy, Debug)]
pub struct Tool {
    pub id: Tools,
    pub shortcut: char,
    pub priority: u16,
}

/// The tool in use.
#[derive(Clone, Copy, Debug)]
pub struct SelectedTool(pub Tools);

/// Horizontal position of the tool icons.
pub const TOOLBAR_X: i128 = 8;

/// Height above the bottom that the toolbar leaves free.
pub const TOOLBAR_BOTTOM: i128 = 72;

/// Vertical position of the `n`-th of `count` icons: the column of icons is
/// centred in what is left of the height, the first icon at the top.
pub open spec fn spec_icon_y(count: int, n: int) -> int {
    HEIGHT - ((HEIGHT - count * ICON - TOOLBAR_BOTTOM) / 2 + n * ICON) - ICON
}

/// Vertical position of the `n`-th of `count` icons.
pub fn icon_y(count: u32, n: u32) -> (y: i128)
    ensures
        y == spec_icon_y(count as int, n as int),
{
    HEIGHT - (HEIGHT - TOOLBAR_BOTTOM) / 2 + (ICON / 2) * (count as i128) - ICON * (n as i128) - ICON
}

/// The selected tool after a click: the tool clicked on, if the click was
/// on a tool.
pub open spec fn selected_after(selected: SelectedTool, clicked: Clicked) -> SelectedTool {
    match clicked.0 {
        ButtonId::Tool(tool) => SelectedTool(tool),
        _ => selected,
    }
}

/// Carries a click out on the selected tool. Returns whether the click was
/// on a tool, that is whether the toolbar is to be laid out again.
pub fn on_click(clicked: &Clicked, selected: &mut SelectedTool) -> (update: bool)
    ensures
        *final(selected) == selected_after(*old(selected), *clicked),
        update == (clicked.0 is Tool),
{
    match clicked.0 {
        ButtonId::Tool(tool) => {
            selected.0 = tool;
            true
        },
        _ => false,
    }
}

/// Whether tool `a` stands above tool `b` in the toolbar: it has the lower
/// priority number, or the same and comes first in the list.
pub open spec fn stands_above(tools: Seq<Tool>, a: int, b: int) -> bool {
    tools[a].priority < tools[b].priority || (tools[a].priority == tools[b].priority && a < b)
}

/// Whether `order` lists the tools from the top of the toolbar down: it
/// names each tool by its place in `tools`, and each tool it names stands
/// above those it names later.
pub open spec fn is_toolbar_order(tools: Seq<Tool>, order: Seq<usize>) -> bool {
    &&& order.len() == tools.len()
    &&& forall|i: int| 0 <= i < order.len() ==> #[trigger] order[i] < tools.len()
    &&& forall|i: int, j: int|
        0 <= i < j < order.len() ==> stands_above(
            tools,
            #[trigger] order[i] as int,
            #[trigger] order[j] as int,
        )
}

/// The order of the tools from the top of the toolbar down, each tool named
/// by its place in `tools`.
pub fn update_toolbar(tools: &Vec<Tool>) -> (order: Vec<usize>)
    ensures
        is_toolbar_order(tools@, order@),
{
    let mut order: Vec<usize> = Vec::new();
    let mut k: usize = 0;
    while k < tools.len()
        invariant
            0 <= k <= tools@.len(),
            order@.len() == k,
            forall|i: int| 0 <= i < order@.len() ==> #[trigger] order@[i] < k,
            forall|i: int, j: int|
                0 <= i < j < order@.len() ==> stands_above(
                    tools@,
                    #[trigger] order@[i] as int,
                    #[trigger] order@[j] as int,
                ),
        decreases tools@.len() - k,
    {
        let priority = tools[k].priority;
        let mut p: usize = 0;
        while p < order.len() && tools[order[p]].priority <= priority
            invariant
                0 <= p <= order@.len(),
                k < tools@.len(),
                priority == tools@[k as int].priority,
                forall|i: int| 0 <= i < order@.len() ==> #[trigger] order@[i] < k,
                forall|i: int|
                    0 <= i < p ==> tools@[#[trigger] order@[i] as int].priority <= priority,
            decreases order@.len() - p,
        {
            p = p + 1;
        }
        let ghost before = order@;
        order.insert(p, k);
        proof {
            assert forall|i: int, j: int| 0 <= i < j < order@.len() implies stands_above(
                tools@,
                #[trigger] order@[i] as int,
                #[trigger] order@[j] as int,
            ) by {
                if j == p {
                    assert(order@[i] == before[i]);
                } else if i == p {
                    assert(order@[j] == before[j - 1]);
                    if p < j - 1 {
                        assert(stands_above(tools@, before[p as int] as int, before[j - 1] as int));
                    }
                } else if i < p && j < p {
                    assert(order@[i] == before[i] && order@[j] == before[j]);
                } else if i < p {
                    assert(order@[i] == before[i] && order@[j] == before[j - 1]);
                } else {
                    assert(order@[i] == before[i - 1] && order@[j] == before[j - 1]);
                }
            }
        }
        k = k + 1;
    }
    order
}

} // verus!
