use rtemo::grid::{Edge, Grid, Resize, Tile, Zoom};
use rtemo::mouse::{ButtonId, Clicked};
use rtemo::quick_tiles::{
    color_place, on_click as strip_click, setup, slot_place, update_range, QuickTileId, Selected,
    Selection,
};
use rtemo::toolbar::{icon_y, on_click as toolbar_click, update_toolbar, SelectedTool, Tool};
use rtemo::tools::resize::{ResizeKeys, ICON_CROP, ICON_EXTEND};
use rtemo::tools::text::TextCursorState;
use rtemo::tools::{eraser, pencil, resize, text, Tools};
use rtemo::util::{tool_priority, Key, Palette};

fn settled(w: usize, h: usize) -> Grid {
    let mut grid = Grid::new(0, 0, w, h, 24).unwrap();
    grid.reconcile(Zoom::new(6).unwrap());
    grid
}

fn ink() -> Selection {
    Selection { index: 40, bg: Palette::E, fg: Palette::A, flip: true, rotation: 3 }
}

fn keys() -> ResizeKeys {
    ResizeKeys {
        shift: false,
        shift_just_pressed: false,
        shift_just_released: false,
        left: false,
        right: false,
        up: false,
        down: false,
    }
}

#[test]
fn tools_that_act_at_once_are_not_selectable() {
    assert!(Tools::Pencil.is_selectable());
    assert!(Tools::Eraser.is_selectable());
    assert!(Tools::Pick.is_selectable());
    assert!(Tools::Text.is_selectable());
    assert!(Tools::Resize.is_selectable());
    assert!(Tools::Custom("fill").is_selectable());
    assert!(!Tools::Export.is_selectable());
    assert!(!Tools::Import.is_selectable());
    assert!(!Tools::CustomNonSelectable("save").is_selectable());
}

#[test]
fn pencil_paints_with_the_selection() {
    let mut grid = settled(2, 2);
    let mut selection = ink();
    let tool = SelectedTool(Tools::Pencil);
    let stroke =
        pencil::update(&tool, false, &mut selection, &Clicked(ButtonId::Grid(1, 1), false), &mut grid);
    assert!(matches!(stroke, pencil::Stroke::Changed((1, 1))));
    assert_eq!(
        *grid.get(1, 1).unwrap(),
        Tile { bg: Palette::E, fg: Palette::A, index: 40, flip: (true, false), rotation: 3 }
    );
    assert_eq!(*grid.get(0, 1).unwrap(), Tile::default());
}

#[test]
fn pencil_with_shift_paints_the_colours_only() {
    let mut grid = settled(1, 1);
    grid.set_tile(0, 0, Tile { bg: Palette::B, fg: Palette::C, index: 9, flip: (false, true), rotation: 1 });
    let mut selection = ink();
    let tool = SelectedTool(Tools::Pencil);
    pencil::update(&tool, true, &mut selection, &Clicked(ButtonId::Grid(0, 0), false), &mut grid);
    assert_eq!(
        *grid.get(0, 0).unwrap(),
        Tile { bg: Palette::E, fg: Palette::A, index: 9, flip: (false, true), rotation: 1 }
    );
}

#[test]
fn pencil_right_click_picks() {
    let mut grid = settled(1, 1);
    let tile = Tile { bg: Palette::B, fg: Palette::C, index: 9, flip: (true, false), rotation: 1 };
    grid.set_tile(0, 0, tile);
    let tool = SelectedTool(Tools::Pencil);
    let mut selection = Selection { flip: false, ..ink() };
    let stroke =
        pencil::update(&tool, false, &mut selection, &Clicked(ButtonId::Grid(0, 0), true), &mut grid);
    assert!(matches!(stroke, pencil::Stroke::Picked));
    assert_eq!((selection.bg, selection.fg), (Palette::B, Palette::C));
    assert_eq!((selection.index, selection.flip, selection.rotation), (9, true, 1));
    assert_eq!(*grid.get(0, 0).unwrap(), tile);
    let mut selection = ink();
    pencil::update(&tool, true, &mut selection, &Clicked(ButtonId::Grid(0, 0), true), &mut grid);
    assert_eq!((selection.bg, selection.fg), (Palette::B, Palette::C));
    assert_eq!((selection.index, selection.flip, selection.rotation), (40, true, 3));
}

#[test]
fn pencil_leaves_other_clicks_alone() {
    let mut grid = settled(1, 1);
    let mut selection = ink();
    let pencil_tool = SelectedTool(Tools::Pencil);
    let other = SelectedTool(Tools::Eraser);
    for (tool, clicked) in [
        (&other, Clicked(ButtonId::Grid(0, 0), false)),
        (&pencil_tool, Clicked(ButtonId::Grid(5, 5), false)),
        (&pencil_tool, Clicked(ButtonId::QuickTile(0), false)),
        (&pencil_tool, Clicked(ButtonId::Tool(Tools::Pencil), false)),
    ] {
        let stroke = pencil::update(tool, false, &mut selection, &clicked, &mut grid);
        assert!(matches!(stroke, pencil::Stroke::Nothing));
    }
    assert_eq!(*grid.get(0, 0).unwrap(), Tile::default());
    assert_eq!(selection.index, 40);
}

#[test]
fn eraser_clears_the_glyph() {
    let mut grid = settled(2, 1);
    grid.set_tile(1, 0, Tile { bg: Palette::B, fg: Palette::C, index: 9, flip: (true, false), rotation: 1 });
    let tool = SelectedTool(Tools::Eraser);
    let changed = eraser::update(&tool, &ink(), &Clicked(ButtonId::Grid(1, 0), true), &mut grid);
    assert_eq!(changed, Some((1, 0)));
    assert_eq!(
        *grid.get(1, 0).unwrap(),
        Tile { bg: Palette::E, fg: Palette::A, index: 0, flip: (true, false), rotation: 1 }
    );
    assert_eq!(eraser::update(&tool, &ink(), &Clicked(ButtonId::Grid(2, 0), false), &mut grid), None);
    let pencil_tool = SelectedTool(Tools::Pencil);
    assert_eq!(eraser::update(&pencil_tool, &ink(), &Clicked(ButtonId::Grid(0, 0), false), &mut grid), None);
    assert_eq!(eraser::update(&tool, &ink(), &Clicked(ButtonId::QuickColor(Palette::A), false), &mut grid), None);
}

#[test]
fn resize_tool_extends_towards_the_arrow() {
    let tool = SelectedTool(Tools::Resize);
    let mut grid = settled(6, 6);
    assert!(resize::update(&tool, &ResizeKeys { left: true, ..keys() }, &mut grid));
    assert_eq!((grid.x0(), grid.y0(), grid.w(), grid.h()), (-1, 0, 7, 6));
    assert!(resize::update(&tool, &ResizeKeys { right: true, ..keys() }, &mut grid));
    assert_eq!((grid.x0(), grid.y0(), grid.w(), grid.h()), (-1, 0, 8, 6));
    assert!(resize::update(&tool, &ResizeKeys { up: true, ..keys() }, &mut grid));
    assert_eq!((grid.x0(), grid.y0(), grid.w(), grid.h()), (-1, -1, 8, 7));
    assert!(resize::update(&tool, &ResizeKeys { down: true, ..keys() }, &mut grid));
    assert_eq!((grid.x0(), grid.y0(), grid.w(), grid.h()), (-1, -1, 8, 8));
    assert!(grid.resized());
}

#[test]
fn resize_tool_with_shift_crops_from_the_other_side() {
    let tool = SelectedTool(Tools::Resize);
    let shift = ResizeKeys { shift: true, ..keys() };
    let mut grid = settled(6, 6);
    assert!(resize::update(&tool, &ResizeKeys { left: true, ..shift }, &mut grid));
    assert_eq!((grid.x0(), grid.y0(), grid.w(), grid.h()), (0, 0, 5, 6));
    assert!(resize::update(&tool, &ResizeKeys { right: true, ..shift }, &mut grid));
    assert_eq!((grid.x0(), grid.y0(), grid.w(), grid.h()), (1, 0, 4, 6));
    assert!(resize::update(&tool, &ResizeKeys { up: true, ..shift }, &mut grid));
    assert_eq!((grid.x0(), grid.y0(), grid.w(), grid.h()), (1, 0, 4, 5));
    assert!(resize::update(&tool, &ResizeKeys { down: true, ..shift }, &mut grid));
    assert_eq!((grid.x0(), grid.y0(), grid.w(), grid.h()), (1, 1, 4, 4));
}

#[test]
fn resize_tool_takes_the_first_arrow_and_needs_to_be_selected() {
    let tool = SelectedTool(Tools::Resize);
    let mut grid = settled(6, 6);
    let all = ResizeKeys { left: true, right: true, up: true, down: true, ..keys() };
    assert!(resize::update(&tool, &all, &mut grid));
    assert_eq!((grid.x0(), grid.y0(), grid.w(), grid.h()), (-1, 0, 7, 6));
    grid.reconcile(Zoom::new(6).unwrap());
    assert!(!resize::update(&tool, &keys(), &mut grid));
    assert!(!resize::update(&SelectedTool(Tools::Pencil), &all, &mut grid));
    assert!(!grid.resized());
    assert_eq!((grid.x0(), grid.y0(), grid.w(), grid.h()), (-1, 0, 7, 6));
}

#[test]
fn resize_tool_stops_at_one_and_at_the_limit() {
    let tool = SelectedTool(Tools::Resize);
    let mut grid = settled(1, 24);
    let shift = ResizeKeys { shift: true, ..keys() };
    assert!(!resize::update(&tool, &ResizeKeys { left: true, ..shift }, &mut grid));
    assert!(!resize::update(&tool, &ResizeKeys { right: true, ..shift }, &mut grid));
    assert!(!resize::update(&tool, &ResizeKeys { up: true, ..keys() }, &mut grid));
    assert!(!resize::update(&tool, &ResizeKeys { down: true, ..keys() }, &mut grid));
    assert_eq!((grid.x0(), grid.y0(), grid.w(), grid.h()), (0, 0, 1, 24));
    assert!(!grid.resized());
    assert!(grid.shrink(Edge::Top));
}

#[test]
fn resize_icon_follows_shift() {
    assert_eq!(ResizeKeys { shift: true, shift_just_pressed: true, ..keys() }.icon(), Some(ICON_CROP));
    assert_eq!(ResizeKeys { shift: true, ..keys() }.icon(), None);
    assert_eq!(ResizeKeys { shift_just_released: true, ..keys() }.icon(), Some(ICON_EXTEND));
    assert_eq!(keys().icon(), None);
    assert_eq!((ICON_EXTEND, ICON_CROP), (9, 10));
}

#[test]
fn text_click_sets_the_cursor() {
    let tool = SelectedTool(Tools::Text);
    let cursor = text::on_click(&tool, &Clicked(ButtonId::Grid(2, 3), false)).unwrap();
    assert_eq!((cursor.start_x, cursor.start_y, cursor.current_x, cursor.current_y), (2, 3, 2, 3));
    assert_eq!(cursor.frame, 0);
    assert!(text::on_click(&tool, &Clicked(ButtonId::QuickTile(1), false)).is_none());
    assert!(text::on_click(&SelectedTool(Tools::Pencil), &Clicked(ButtonId::Grid(2, 3), false)).is_none());
}

#[test]
fn typing_writes_glyphs_and_moves_on() {
    let mut grid = settled(3, 2);
    let mut cursor =
        TextCursorState { start_x: 1, start_y: 0, current_x: 1, current_y: 0, frame: 0 };
    assert_eq!(text::on_type(&mut cursor, &mut grid, &ink(), &Key::H), Some((1, 0)));
    assert_eq!(text::on_type(&mut cursor, &mut grid, &ink(), &Key::I), Some((2, 0)));
    // Past the last column there is no cell: nothing is written, the cursor waits.
    assert_eq!(text::on_type(&mut cursor, &mut grid, &ink(), &Key::X), None);
    assert_eq!((cursor.current_x, cursor.current_y), (3, 0));
    assert_eq!(text::on_type(&mut cursor, &mut grid, &ink(), &Key::Return), None);
    assert_eq!((cursor.current_x, cursor.current_y), (1, 1));
    assert_eq!(text::on_type(&mut cursor, &mut grid, &ink(), &Key::Other), None);
    assert_eq!((cursor.current_x, cursor.current_y), (1, 1));
    assert_eq!(text::on_type(&mut cursor, &mut grid, &ink(), &Key::A), Some((1, 1)));
    let h = grid.get(1, 0).unwrap();
    assert_eq!((h.index, h.bg, h.fg), (865 + 72 - 33, Palette::E, Palette::A));
    assert_eq!((h.flip, h.rotation), ((false, false), 0));
    assert_eq!(grid.get(2, 0).unwrap().index, 865 + 73 - 33);
    assert_eq!(grid.get(1, 1).unwrap().index, 897);
    assert_eq!(*grid.get(0, 0).unwrap(), Tile::default());
}

#[test]
fn space_bar_moves_the_cursor_on_and_writes_nothing() {
    let mut grid = settled(3, 1);
    grid.set_tile(1, 0, Tile { index: 44, ..Tile::default() });
    let mut cursor =
        TextCursorState { start_x: 0, start_y: 0, current_x: 0, current_y: 0, frame: 0 };
    assert_eq!(text::on_type(&mut cursor, &mut grid, &ink(), &Key::A), Some((0, 0)));
    assert_eq!(text::on_type(&mut cursor, &mut grid, &ink(), &Key::Space), None);
    assert_eq!((cursor.current_x, cursor.current_y), (2, 0));
    assert_eq!((cursor.start_x, cursor.start_y), (0, 0));
    assert_eq!(text::on_type(&mut cursor, &mut grid, &ink(), &Key::B), Some((2, 0)));
    assert_eq!(*grid.get(1, 0).unwrap(), Tile { index: 44, ..Tile::default() });
    assert_eq!(grid.get(0, 0).unwrap().index, 897);
    assert_eq!(grid.get(2, 0).unwrap().index, 898);
    // Where there is no cell the space bar moves on all the same.
    assert_eq!(text::on_type(&mut cursor, &mut grid, &ink(), &Key::Space), None);
    assert_eq!(text::on_type(&mut cursor, &mut grid, &ink(), &Key::Space), None);
    assert_eq!(cursor.current_x, 5);
    let mut last =
        TextCursorState { start_x: 0, start_y: 0, current_x: isize::MAX, current_y: 0, frame: 0 };
    assert_eq!(text::on_type(&mut last, &mut grid, &ink(), &Key::Space), None);
    assert_eq!(last.current_x, isize::MAX);
}

#[test]
fn return_on_the_last_row_stays_there() {
    let mut grid = settled(1, 1);
    let mut cursor =
        TextCursorState { start_x: 4, start_y: 0, current_x: 9, current_y: isize::MAX, frame: 0 };
    assert_eq!(text::on_type(&mut cursor, &mut grid, &ink(), &Key::Return), None);
    assert_eq!((cursor.current_x, cursor.current_y), (4, isize::MAX));
}

#[test]
fn cursor_blinks_every_sixty_frames() {
    let mut cursor =
        TextCursorState { start_x: 0, start_y: 0, current_x: 0, current_y: 0, frame: 0 };
    let mut shown = Vec::new();
    for _ in 0..120 {
        shown.push(cursor.update());
    }
    assert_eq!(cursor.frame, 0);
    for (n, visible) in shown.iter().enumerate() {
        assert_eq!(*visible, (n + 1) % 60 < 30, "frame {}", n);
    }
    assert_eq!(text::CURSOR_GLYPH, 927);
}

#[test]
fn selection_starts_with_the_default_glyph() {
    let s = Selection::default();
    assert_eq!((s.index, s.bg, s.fg, s.flip, s.rotation), (1, Palette::E, Palette::A, false, 0));
}

#[test]
fn selection_flips_and_turns() {
    let mut s = Selection::default();
    s.toggle_flip();
    assert!(s.flip);
    s.toggle_flip();
    assert!(!s.flip);
    let mut seen = Vec::new();
    for _ in 0..5 {
        s.rotate();
        seen.push(s.rotation);
    }
    assert_eq!(seen, vec![1, 2, 3, 0, 1]);
    let mut odd = Selection { rotation: 255, ..Selection::default() };
    odd.rotate();
    assert_eq!(odd.rotation, 0);
}

#[test]
fn strip_starts_with_the_first_glyphs() {
    let tiles = setup();
    assert_eq!(tiles.len(), 128);
    for (i, slot) in tiles.iter().enumerate() {
        assert_eq!((slot.index, slot.tile), (i, i));
    }
}

#[test]
fn strip_pages_through_the_tileset() {
    let pencil = SelectedTool(Tools::Pencil);
    let mut tiles = setup();
    assert!(update_range(&pencil, false, true, &mut tiles));
    assert_eq!((tiles[0].tile, tiles[127].tile), (128, 255));
    assert!(update_range(&pencil, true, false, &mut tiles));
    assert!(update_range(&pencil, true, true, &mut tiles));
    assert_eq!((tiles[0].tile, tiles[127].tile), (896, 1023));
    assert!(update_range(&pencil, false, true, &mut tiles));
    assert_eq!((tiles[0].tile, tiles[127].tile), (0, 127));
    assert!(!update_range(&pencil, false, false, &mut tiles));
    assert_eq!((tiles[0].tile, tiles[127].tile), (0, 127));
    assert_eq!(tiles[5].index, 5);
    let mut odd = vec![QuickTileId { index: 0, tile: usize::MAX }];
    assert!(update_range(&SelectedTool(Tools::Text), false, true, &mut odd));
    assert_eq!(odd[0].tile, (usize::MAX % 1024 + 128) % 1024);
}

#[test]
fn strip_does_not_page_while_the_grid_is_resized() {
    let resize = SelectedTool(Tools::Resize);
    let mut tiles = setup();
    assert!(!update_range(&resize, true, false, &mut tiles));
    assert!(!update_range(&resize, false, true, &mut tiles));
    assert!(!update_range(&resize, true, true, &mut tiles));
    assert!(!update_range(&resize, false, false, &mut tiles));
    for (i, slot) in tiles.iter().enumerate() {
        assert_eq!((slot.index, slot.tile), (i, i));
    }
}

#[test]
fn a_page_down_undoes_a_page_up() {
    let tool = SelectedTool(Tools::Eraser);
    let mut tiles = setup();
    for _ in 0..3 {
        update_range(&tool, false, true, &mut tiles);
    }
    let before: Vec<usize> = tiles.iter().map(|slot| slot.tile).collect();
    update_range(&tool, true, false, &mut tiles);
    update_range(&tool, false, true, &mut tiles);
    let after: Vec<usize> = tiles.iter().map(|slot| slot.tile).collect();
    assert_eq!(before, after);
    assert!(after.iter().all(|tile| *tile < 1024));
}

#[test]
fn clicks_on_strip_and_palette_change_the_selection() {
    let mut tiles = setup();
    update_range(&SelectedTool(Tools::Pencil), false, true, &mut tiles);
    let mut selection = ink();
    let sent = strip_click(&tiles, &Clicked(ButtonId::QuickTile(3), false), &mut selection);
    assert!(matches!(sent, Some(Selected::Tile(t)) if t.0 == 131));
    assert_eq!(selection.index, 131);
    let sent = strip_click(&tiles, &Clicked(ButtonId::QuickTile(500), false), &mut selection);
    assert!(sent.is_none());
    assert_eq!(selection.index, 131);
    let sent = strip_click(&tiles, &Clicked(ButtonId::QuickColor(Palette::K), false), &mut selection);
    assert!(matches!(sent, Some(Selected::Color(c)) if c.0 == Palette::K && !c.1));
    assert_eq!((selection.bg, selection.fg), (Palette::E, Palette::K));
    let sent = strip_click(&tiles, &Clicked(ButtonId::QuickColor(Palette::M), true), &mut selection);
    assert!(matches!(sent, Some(Selected::Color(c)) if c.0 == Palette::M && c.1));
    assert_eq!((selection.bg, selection.fg), (Palette::M, Palette::K));
    assert!(strip_click(&tiles, &Clicked(ButtonId::Grid(0, 0), false), &mut selection).is_none());
    let twice = vec![QuickTileId { index: 1, tile: 10 }, QuickTileId { index: 1, tile: 20 }];
    strip_click(&twice, &Clicked(ButtonId::QuickTile(1), false), &mut selection);
    assert_eq!(selection.index, 10);
}

#[test]
fn toolbar_click_selects_the_tool() {
    let mut selected = SelectedTool(Tools::Pencil);
    assert!(toolbar_click(&Clicked(ButtonId::Tool(Tools::Import), false), &mut selected));
    assert!(matches!(selected.0, Tools::Import));
    assert!(!toolbar_click(&Clicked(ButtonId::Grid(0, 0), false), &mut selected));
    assert!(matches!(selected.0, Tools::Import));
}

#[test]
fn toolbar_icons_are_centred() {
    assert_eq!(icon_y(6, 0), 168);
    assert_eq!(icon_y(6, 5), 88);
    assert_eq!(icon_y(1, 0), 128);
    assert_eq!(icon_y(0, 0), 120);
    // The icons' column is as far from the top as from what is kept free below.
    assert_eq!(200 - (icon_y(6, 0) + 16), icon_y(6, 5) - 72);
    let tool = Tool { id: Tools::Export, shortcut: 'r', priority: tool_priority::EXPORT };
    assert_eq!(tool.priority, 70);
}

#[test]
fn toolbar_lists_tools_by_priority() {
    let tool = |id: Tools, priority: u16| Tool { id, shortcut: ' ', priority };
    let tools = vec![
        tool(Tools::Import, tool_priority::IMPORT),
        tool(Tools::Text, tool_priority::TEXT),
        tool(Tools::Pencil, tool_priority::PENCIL),
        tool(Tools::Export, tool_priority::EXPORT),
        tool(Tools::Eraser, tool_priority::ERASER),
        tool(Tools::Resize, tool_priority::RESIZE),
    ];
    assert_eq!(update_toolbar(&tools), vec![2, 4, 1, 5, 3, 0]);
    assert_eq!(update_toolbar(&vec![]), Vec::<usize>::new());
}

#[test]
fn toolbar_keeps_tools_of_one_priority_in_their_order() {
    let tool = |priority: u16| Tool { id: Tools::Custom("x"), shortcut: ' ', priority };
    let tools = vec![tool(5), tool(1), tool(5), tool(0), tool(1), tool(5), tool(0)];
    assert_eq!(update_toolbar(&tools), vec![3, 6, 1, 4, 0, 2, 5]);
    let same = vec![tool(9); 4];
    assert_eq!(update_toolbar(&same), vec![0, 1, 2, 3]);
    let falling = vec![tool(3), tool(2), tool(1), tool(0)];
    assert_eq!(update_toolbar(&falling), vec![3, 2, 1, 0]);
}

#[test]
fn strip_and_palette_places() {
    assert_eq!(slot_place(0), (56, 32));
    assert_eq!(slot_place(31), (56 + 31 * 8, 32));
    assert_eq!(slot_place(32), (56, 24));
    assert_eq!(slot_place(127), (56 + 31 * 8, 8));
    assert_eq!(color_place(0), (8, 72));
    assert_eq!(color_place(1), (16, 72));
    assert_eq!(color_place(2), (8, 64));
    assert_eq!(color_place(17), (16, 8));
}

#[test]
fn resize_keys_ask_for_one_change() {
    assert!(keys().request().is_none());
    assert!(matches!(
        ResizeKeys { left: true, ..keys() }.request(),
        Some(Resize::Grow(Edge::Left))
    ));
    assert!(matches!(
        ResizeKeys { down: true, ..keys() }.request(),
        Some(Resize::Grow(Edge::Bottom))
    ));
    assert!(matches!(
        ResizeKeys { shift: true, left: true, ..keys() }.request(),
        Some(Resize::Shrink(Edge::Right))
    ));
    assert!(matches!(
        ResizeKeys { shift: true, up: true, down: true, ..keys() }.request(),
        Some(Resize::Shrink(Edge::Bottom))
    ));
    assert!(ResizeKeys { shift: true, ..keys() }.request().is_none());
}
