//! The popup-menu tree and its tracking state machine.

use vstd::prelude::*;

use crate::geometry::{COORD_MAX, COORD_MIN, Point, Rect};

verus! {

/// Outer margin of a popup, in device-independent units.
pub const MENU_MARGIN: i32 = 4;
/// Border width of a popup.
pub const MENU_BORDER_WIDTH: i32 = 1;
/// Vertical gap between two items.
pub const MENU_LIST_GAP: i32 = 2;
/// Narrowest width a popup may take.
pub const MENU_MIN_WIDTH: i32 = 138;
/// Width reserved for the submenu indicator glyph.
pub const SUB_MENU_INDICATOR_WIDTH: i32 = 24;
/// Most items one menu may hold.
pub const MENU_ITEMS_MAX: usize = 1024;
/// Largest measured text extent accepted for one item.
pub const MENU_METRIC_MAX: i32 = 0x2000;

/// A caller-supplied declarative description of a menu.
pub enum MenuInfo {
    MenuItem { text: Vec<u16>, command_id: u32, disabled: bool },
    SubMenu { menu_list: Vec<MenuInfo>, text: Vec<u16> },
    MenuDivider,
}

/// One entry of a built menu: a command leaf, a nested submenu (owning its
/// child), or a divider. Rectangles are in menu-local device-independent
/// units, set by layout.
pub enum MenuItem {
    MenuItem { text: Vec<u16>, id: u32, rect: Rect, disabled: bool },
    SubMenu { sub_menu: Box<Menu>, text: Vec<u16>, rect: Rect },
    MenuDivider { rect: Rect },
}

/// A menu node. `window` holds the popup's screen rectangle while the
/// popup is displayed and is `None` otherwise.
pub struct Menu {
    pub items: Vec<MenuItem>,
    pub window: Option<Rect>,
    pub focused_item_index: Option<usize>,
    pub menu_list_rect: Rect,
    pub is_scrolling: bool,
    pub scroll_position: i32,
}

/// A menu whose popup is closed, all the way down.
pub open spec fn deep_closed(m: Menu) -> bool
    decreases m,
{
    &&& m.window is None
    &&& m.focused_item_index is None
    &&& forall|i: int| 0 <= i < m.items@.len() ==> match #[trigger] m.items@[i] {
        MenuItem::SubMenu { sub_menu, .. } => deep_closed(*sub_menu),
        _ => true,
    }
}

/// Well-formedness of one item: its rectangle is in range and a submenu is
/// itself well-formed.
pub open spec fn item_wf(it: MenuItem) -> bool
    decreases it,
{
    match it {
        MenuItem::MenuItem { rect, .. } => rect.in_range(),
        MenuItem::SubMenu { sub_menu, rect, .. } => rect.in_range() && menu_wf(*sub_menu),
        MenuItem::MenuDivider { rect } => rect.in_range(),
    }
}

/// Well-formedness of a menu node: the focus is a real index, rectangles
/// and the scroll position are in range, there are not too many items, and
/// only the focused item's submenu may have an open popup — everything off
/// the focused path is closed.
pub open spec fn menu_wf(m: Menu) -> bool
    decreases m,
{
    &&& match m.focused_item_index {
        Some(i) => i < m.items@.len(),
        None => true,
    }
    &&& m.menu_list_rect.in_range()
    &&& 0 <= m.scroll_position <= COORD_MAX
    &&& m.items@.len() <= MENU_ITEMS_MAX
    &&& match m.window {
        Some(r) => r.in_range(),
        None => true,
    }
    &&& forall|i: int| 0 <= i < m.items@.len() ==> item_wf(#[trigger] m.items@[i])
    &&& forall|i: int| 0 <= i < m.items@.len()
        && m.focused_item_index != Some(i as usize) ==> match #[trigger] m.items@[i] {
        MenuItem::SubMenu { sub_menu, .. } => deep_closed(*sub_menu),
        _ => true,
    }
}

/// A legal menu description: no level holds too many entries.
pub open spec fn info_wf(info: MenuInfo) -> bool
    decreases info,
{
    match info {
        MenuInfo::SubMenu { menu_list, .. } => menu_list@.len() <= MENU_ITEMS_MAX
            && (forall|i: int| 0 <= i < menu_list@.len()
                ==> info_wf(#[trigger] menu_list@[i])),
        _ => true,
    }
}

/// A freshly built item mirrors its description: same text, identifier and
/// disabled flag, a zero rectangle, and a freshly built submenu.
pub open spec fn item_matches(item: MenuItem, info: MenuInfo) -> bool
    decreases info,
{
    match info {
        MenuInfo::MenuItem { text, command_id, disabled } => match item {
            MenuItem::MenuItem { text: t, id, rect, disabled: d } => t@ == text@
                && id == command_id && d == disabled && rect == (Rect {
                left: 0,
                top: 0,
                right: 0,
                bottom: 0,
            }),
            _ => false,
        },
        MenuInfo::SubMenu { menu_list, text } => match item {
            MenuItem::SubMenu { sub_menu, text: t, rect } => t@ == text@ && rect == (Rect {
                left: 0,
                top: 0,
                right: 0,
                bottom: 0,
            }) && fresh_menu(*sub_menu) && items_match(sub_menu.items@, menu_list@),
            _ => false,
        },
        MenuInfo::MenuDivider => match item {
            MenuItem::MenuDivider { rect } => rect == (Rect {
                left: 0,
                top: 0,
                right: 0,
                bottom: 0,
            }),
            _ => false,
        },
    }
}

/// Every built item mirrors its description, in order.
pub open spec fn items_match(items: Seq<MenuItem>, infos: Seq<MenuInfo>) -> bool
    decreases infos,
{
    items.len() == infos.len() && (forall|i: int| 0 <= i < infos.len()
        ==> item_matches(items[i], #[trigger] infos[i]))
}

/// A freshly built menu: not shown, nothing focused, no layout yet.
pub open spec fn fresh_menu(m: Menu) -> bool {
    &&& m.window is None
    &&& m.focused_item_index is None
    &&& m.menu_list_rect == (Rect { left: 0, top: 0, right: 0, bottom: 0 })
    &&& !m.is_scrolling
    &&& m.scroll_position == 0
}

/// Builds the owned menu tree from a caller-supplied declarative
/// description; nothing is shown or laid out yet.
pub fn convert_menu_info_list_to_menu(menu_info_list: Vec<MenuInfo>) -> (r: Menu)
    requires
        menu_info_list@.len() <= MENU_ITEMS_MAX,
        forall|i: int| 0 <= i < menu_info_list@.len()
            ==> info_wf(#[trigger] menu_info_list@[i]),
    ensures
        fresh_menu(r),
        items_match(r.items@, menu_info_list@),
        r.items@.len() == menu_info_list@.len(),
        menu_wf(r),
        deep_closed(r),
    decreases menu_info_list,
{
    let mut items: Vec<MenuItem> = Vec::new();
    let mut infos = menu_info_list;
    let n = infos.len();
    let ghost infos0 = infos@;
    let mut k: usize = 0;
    while k < n
        invariant
            infos0 == menu_info_list@,
            infos@ =~= infos0.skip(k as int),
            infos0.len() == n <= MENU_ITEMS_MAX,
            forall|i: int| 0 <= i < infos0.len() ==> info_wf(#[trigger] infos0[i]),
            0 <= k <= n,
            items@.len() == k,
            forall|i: int| 0 <= i < k ==> item_matches(items@[i], #[trigger] infos0[i]),
            forall|i: int| 0 <= i < k ==> item_wf(#[trigger] items@[i]),
            forall|i: int| 0 <= i < k ==> match #[trigger] items@[i] {
                MenuItem::SubMenu { sub_menu, .. } => deep_closed(*sub_menu),
                _ => true,
            },
        decreases n - k,
    {
        proof {
            assert(infos@[0] == infos0[k as int]);
            assert(infos0.skip(k as int).skip(1) =~= infos0.skip(k + 1));
        }
        let info = infos.remove(0);
        let ghost ginfo = info;
        let item = match info {
            MenuInfo::MenuItem { text, command_id, disabled } => MenuItem::MenuItem {
                text,
                id: command_id,
                rect: Rect::zero(),
                disabled,
            },
            MenuInfo::SubMenu { menu_list, text } => {
                proof {
                    broadcast use vstd::std_specs::vec::axiom_vec_index_decreases;

                    assert(ginfo == menu_info_list@[k as int]);
                    assert(decreases_to!(menu_info_list => ginfo));
                }
                let sub_menu = convert_menu_info_list_to_menu(menu_list);
                MenuItem::SubMenu { sub_menu: Box::new(sub_menu), text, rect: Rect::zero() }
            },
            MenuInfo::MenuDivider => MenuItem::MenuDivider { rect: Rect::zero() },
        };
        items.push(item);
        k = k + 1;
    }
    Menu {
        items,
        window: None,
        focused_item_index: None,
        menu_list_rect: Rect::zero(),
        is_scrolling: false,
        scroll_position: 0,
    }
}

/// The rectangle layout assigned to an item.
pub open spec fn rect_of(it: MenuItem) -> Rect {
    match it {
        MenuItem::MenuItem { rect, .. } => rect,
        MenuItem::SubMenu { rect, .. } => rect,
        MenuItem::MenuDivider { rect } => rect,
    }
}

/// Whether an item is a divider (dividers never take focus).
pub open spec fn is_divider(it: MenuItem) -> bool {
    it is MenuDivider
}

/// The nearest focusable (non-divider) index at or below `i`.
pub open spec fn spec_scan_down(items: Seq<MenuItem>, i: int) -> Option<int>
    decreases i + 1,
{
    if i < 0 || i >= items.len() {
        None
    } else if !is_divider(items[i]) {
        Some(i)
    } else {
        spec_scan_down(items, i - 1)
    }
}

/// The nearest focusable (non-divider) index at or above `i`.
pub open spec fn spec_scan_up(items: Seq<MenuItem>, i: int) -> Option<int>
    decreases items.len() - i,
{
    if i < 0 || i >= items.len() {
        None
    } else if !is_divider(items[i]) {
        Some(i)
    } else {
        spec_scan_up(items, i + 1)
    }
}

/// The focused submenu of `m` must already be closed before the focus can
/// move elsewhere: switching is strictly close-then-select.
pub open spec fn focused_sub_closed(m: Menu) -> bool {
    match m.focused_item_index {
        Some(i) => i < m.items@.len() && match m.items@[i as int] {
            MenuItem::SubMenu { sub_menu, .. } => deep_closed(*sub_menu),
            _ => true,
        },
        None => true,
    }
}

impl Menu {
    /// Moves the focus highlight to `index` (or clears it); the host
    /// repaints the popup. Whatever open submenu the focus leaves behind
    /// must have been hidden first.
    pub fn select_item(&mut self, index: Option<usize>)
        requires
            menu_wf(*old(self)),
            match index {
                Some(i) => i < old(self).items@.len(),
                None => true,
            },
            old(self).focused_item_index == index || focused_sub_closed(*old(self)),
        ensures
            *final(self) == (Menu { focused_item_index: index, ..*old(self) }),
            menu_wf(*final(self)),
    {
        let same = match (self.focused_item_index, index) {
            (Some(a), Some(b)) => a == b,
            (None, None) => true,
            _ => false,
        };
        if same {
            return;
        }
        self.focused_item_index = index;
    }

    /// Moves the focus to the previous non-divider item; the focus stops at
    /// the first focusable item instead of wrapping, and an unfocused menu
    /// stays unfocused.
    pub fn select_previous(&mut self)
        requires
            menu_wf(*old(self)),
            focused_sub_closed(*old(self)),
        ensures
            final(self).focused_item_index == match old(self).focused_item_index {
                Some(f) => match spec_scan_down(old(self).items@, f - 1) {
                    Some(j) => Some(j as usize),
                    None => Some(f),
                },
                None => None::<usize>,
            },
            *final(self) == (Menu {
                focused_item_index: final(self).focused_item_index,
                ..*old(self)
            }),
            menu_wf(*final(self)),
    {
        if let Some(f) = self.focused_item_index {
            let mut i = f;
            while i > 0
                invariant
                    menu_wf(*self),
                    focused_sub_closed(*self),
                    *self == *old(self),
                    old(self).focused_item_index == Some(f),
                    f < self.items@.len(),
                    0 <= i <= f,
                    spec_scan_down(self.items@, f - 1) == spec_scan_down(self.items@, i - 1),
                decreases i,
            {
                i = i - 1;
                let hit = match &self.items[i] {
                    MenuItem::MenuDivider { .. } => false,
                    _ => true,
                };
                if hit {
                    self.select_item(Some(i));
                    return;
                }
            }
        }
    }

    /// Moves the focus to the next non-divider item; the focus stops at the
    /// last focusable item instead of wrapping, and an unfocused menu stays
    /// unfocused.
    pub fn select_next(&mut self)
        requires
            menu_wf(*old(self)),
            focused_sub_closed(*old(self)),
        ensures
            final(self).focused_item_index == match old(self).focused_item_index {
                Some(f) => match spec_scan_up(old(self).items@, f + 1) {
                    Some(j) => Some(j as usize),
                    None => Some(f),
                },
                None => None::<usize>,
            },
            *final(self) == (Menu {
                focused_item_index: final(self).focused_item_index,
                ..*old(self)
            }),
            menu_wf(*final(self)),
    {
        if let Some(f) = self.focused_item_index {
            let mut i = f;
            while i + 1 < self.items.len()
                invariant
                    menu_wf(*self),
                    focused_sub_closed(*self),
                    *self == *old(self),
                    old(self).focused_item_index == Some(f),
                    f <= i < self.items@.len(),
                    spec_scan_up(self.items@, f + 1) == spec_scan_up(self.items@, i + 1),
                decreases self.items@.len() - i,
            {
                i = i + 1;
                let hit = match &self.items[i] {
                    MenuItem::MenuDivider { .. } => false,
                    _ => true,
                };
                if hit {
                    self.select_item(Some(i));
                    return;
                }
            }
        }
    }

    /// Focuses the first non-divider item, if there is one.
    pub fn select_first(&mut self)
        requires
            menu_wf(*old(self)),
            focused_sub_closed(*old(self)),
        ensures
            final(self).focused_item_index == match spec_scan_up(old(self).items@, 0) {
                Some(j) => Some(j as usize),
                None => old(self).focused_item_index,
            },
            *final(self) == (Menu {
                focused_item_index: final(self).focused_item_index,
                ..*old(self)
            }),
            menu_wf(*final(self)),
    {
        let mut i: usize = 0;
        while i < self.items.len()
            invariant
                menu_wf(*self),
                focused_sub_closed(*self),
                *self == *old(self),
                0 <= i <= self.items@.len(),
                spec_scan_up(self.items@, 0) == spec_scan_up(self.items@, i as int),
            decreases self.items@.len() - i,
        {
            let hit = match &self.items[i] {
                MenuItem::MenuDivider { .. } => false,
                _ => true,
            };
            if hit {
                self.select_item(Some(i));
                return;
            }
            i = i + 1;
        }
    }

    /// Focuses the last non-divider item, if there is one.
    pub fn select_last(&mut self)
        requires
            menu_wf(*old(self)),
            focused_sub_closed(*old(self)),
        ensures
            final(self).focused_item_index == match spec_scan_down(old(self).items@,
                old(self).items@.len() - 1) {
                Some(j) => Some(j as usize),
                None => old(self).focused_item_index,
            },
            *final(self) == (Menu {
                focused_item_index: final(self).focused_item_index,
                ..*old(self)
            }),
            menu_wf(*final(self)),
    {
        let mut i: usize = self.items.len();
        while i > 0
            invariant
                menu_wf(*self),
                focused_sub_closed(*self),
                *self == *old(self),
                0 <= i <= self.items@.len(),
                spec_scan_down(self.items@, self.items@.len() - 1) == spec_scan_down(
                    self.items@, i - 1),
            decreases i,
        {
            i = i - 1;
            let hit = match &self.items[i] {
                MenuItem::MenuDivider { .. } => false,
                _ => true,
            };
            if hit {
                self.select_item(Some(i));
                return;
            }
        }
    }
}


/// Where the scrolled list places an item rectangle inside the popup.
pub open spec fn spec_scroll_offset(m: Menu) -> int {
    if m.is_scrolling {
        m.scroll_position as int
    } else {
        0
    }
}

/// An item rectangle moved into popup coordinates: offset by the list
/// rectangle's origin, minus the scroll position while scrolling.
pub open spec fn spec_adjusted_rect(m: Menu, r: Rect) -> (int, int, int, int) {
    let dx = m.menu_list_rect.left as int;
    let dy = m.menu_list_rect.top - spec_scroll_offset(m);
    (r.left + dx, r.top + dy, r.right + dx, r.bottom + dy)
}

/// Moves an item rectangle into popup coordinates.
pub fn adjust_menu_item_rect(menu: &Menu, rect: &Rect) -> (r: Rect)
    requires
        menu_wf(*menu),
        rect.in_range(),
    ensures
        (r.left as int, r.top as int, r.right as int, r.bottom as int) == spec_adjusted_rect(
            *menu, *rect),
{
    let scroll_offset = if menu.is_scrolling {
        menu.scroll_position
    } else {
        0
    };
    Rect {
        left: rect.left + menu.menu_list_rect.left,
        top: rect.top + menu.menu_list_rect.top - scroll_offset,
        right: rect.right + menu.menu_list_rect.left,
        bottom: rect.bottom + menu.menu_list_rect.top - scroll_offset,
    }
}

/// A point lies inside an item once the item is moved into popup
/// coordinates.
pub open spec fn spec_point_in_item(m: Menu, p: Point, it: MenuItem) -> bool {
    let r = spec_adjusted_rect(m, rect_of(it));
    r.0 <= p.x < r.2 && r.1 <= p.y < r.3
}

/// The first item under a point, scanning from `i` in order.
pub open spec fn spec_hit_item(m: Menu, p: Point, i: int) -> Option<int>
    decreases m.items@.len() - i,
{
    if i < 0 || i >= m.items@.len() {
        None
    } else if spec_point_in_item(m, p, m.items@[i]) {
        Some(i)
    } else {
        spec_hit_item(m, p, i + 1)
    }
}

/// What a point hits inside a popup.
#[derive(Clone, Copy, PartialEq, Eq, Structural, Debug)]
pub enum HitTest {
    Nowhere,
    Border,
    Item(usize),
    ScrollUp,
    ScrollDown,
}

/// What `find_item_by_coordinates` answers, and the point it hands back:
/// outside the popup nothing is hit; inside, the point is translated into
/// popup coordinates, the top and bottom margins of a scrolling menu act as
/// scroll zones (the point then moves to the item just beyond the list),
/// the margins otherwise count as border, and a point on the list hits the
/// first item whose rectangle holds it.
pub open spec fn spec_find_item(m: Menu, p: Point) -> (HitTest, Point) {
    match m.window {
        None => (HitTest::Nowhere, p),
        Some(w) => if !w.spec_contains(p) {
            (HitTest::Nowhere, p)
        } else {
            let local = Point { x: (p.x - w.left) as i32, y: (p.y - w.top) as i32 };
            if !m.menu_list_rect.spec_contains(local) {
                if !m.is_scrolling || local.x < m.menu_list_rect.left
                    || local.x >= m.menu_list_rect.right {
                    (HitTest::Border, local)
                } else if local.y < m.menu_list_rect.top {
                    (HitTest::ScrollUp, Point {
                        x: local.x,
                        y: (m.menu_list_rect.top - 1) as i32,
                    })
                } else {
                    (HitTest::ScrollDown, Point { x: local.x, y: m.menu_list_rect.bottom })
                }
            } else {
                match spec_hit_item(m, local, 0) {
                    Some(i) => (HitTest::Item(i as usize), local),
                    None => (HitTest::Nowhere, local),
                }
            }
        },
    }
}

/// Hit-tests a screen point against a popup, per `spec_find_item`.
pub fn find_item_by_coordinates(menu: &Menu, point: Point) -> (r: (HitTest, Point))
    requires
        menu_wf(*menu),
        point.in_range(),
    ensures
        r == spec_find_item(*menu, point),
{
    let w = match menu.window {
        None => {
            return (HitTest::Nowhere, point);
        },
        Some(w) => w,
    };
    if !w.contains(point) {
        return (HitTest::Nowhere, point);
    }
    let local = Point { x: point.x - w.left, y: point.y - w.top };
    if !menu.menu_list_rect.contains(local) {
        if !menu.is_scrolling || local.x < menu.menu_list_rect.left
            || local.x >= menu.menu_list_rect.right {
            return (HitTest::Border, local);
        }
        if local.y < menu.menu_list_rect.top {
            return (HitTest::ScrollUp, Point { x: local.x, y: menu.menu_list_rect.top - 1 });
        }
        return (HitTest::ScrollDown, Point { x: local.x, y: menu.menu_list_rect.bottom });
    }
    let mut i: usize = 0;
    while i < menu.items.len()
        invariant
            menu_wf(*menu),
            0 <= i <= menu.items@.len(),
            spec_hit_item(*menu, local, 0) == spec_hit_item(*menu, local, i as int),
            local.x == point.x - w.left,
            local.y == point.y - w.top,
            menu.window == Some(w),
            w.spec_contains(point),
            menu.menu_list_rect.spec_contains(local),
        decreases menu.items@.len() - i,
    {
        let rect = match &menu.items[i] {
            MenuItem::MenuItem { rect, .. } => *rect,
            MenuItem::SubMenu { rect, .. } => *rect,
            MenuItem::MenuDivider { rect } => *rect,
        };
        let adjusted = adjust_menu_item_rect(menu, &rect);
        if adjusted.contains(local) {
            return (HitTest::Item(i), local);
        }
        i = i + 1;
    }
    (HitTest::Nowhere, local)
}


/// A host-measured text extent for one item, already padded: the width and
/// height the item's label needs.
#[derive(Clone, Copy, PartialEq, Eq, Structural, Debug)]
pub struct ItemMetric {
    pub width: i32,
    pub height: i32,
}

/// A legal measurement.
pub open spec fn metric_wf(m: ItemMetric) -> bool {
    0 <= m.width <= MENU_METRIC_MAX && 0 <= m.height <= MENU_METRIC_MAX
}

/// The width one item asks of the popup: its measured label width, plus
/// the reserved indicator width for a submenu.
pub open spec fn spec_item_width(it: MenuItem, m: ItemMetric) -> int {
    match it {
        MenuItem::SubMenu { .. } => m.width + SUB_MENU_INDICATOR_WIDTH,
        MenuItem::MenuItem { .. } => m.width as int,
        MenuItem::MenuDivider { .. } => 0,
    }
}

/// The height one item takes: a measured row at least 32 units tall, or
/// the divider's own measured height.
pub open spec fn spec_item_height(it: MenuItem, m: ItemMetric) -> int {
    match it {
        MenuItem::MenuDivider { .. } => m.height as int,
        _ => if m.height >= 32 {
            m.height as int
        } else {
            32
        },
    }
}

/// The y-coordinate where item `i` starts, stacking the items above it
/// with one gap between neighbours.
pub open spec fn spec_item_y(items: Seq<MenuItem>, ms: Seq<ItemMetric>, i: int) -> int
    decreases i,
{
    if i <= 0 {
        0
    } else {
        spec_item_y(items, ms, i - 1) + spec_item_height(items[i - 1], ms[i - 1])
            + MENU_LIST_GAP
    }
}

/// The widest width any of the first `i` items asks for.
pub open spec fn spec_max_width(items: Seq<MenuItem>, ms: Seq<ItemMetric>, i: int) -> int
    decreases i,
{
    if i <= 0 {
        0
    } else {
        let w = spec_item_width(items[i - 1], ms[i - 1]);
        let rest = spec_max_width(items, ms, i - 1);
        if w >= rest {
            w
        } else {
            rest
        }
    }
}

/// The popup's list width: the widest item, but never under the minimum.
pub open spec fn spec_list_width(items: Seq<MenuItem>, ms: Seq<ItemMetric>) -> int {
    let w = spec_max_width(items, ms, items.len() as int);
    if w >= MENU_MIN_WIDTH {
        w
    } else {
        MENU_MIN_WIDTH as int
    }
}

/// The stacked height of the whole list (without the trailing gap).
pub open spec fn spec_list_height(items: Seq<MenuItem>, ms: Seq<ItemMetric>) -> int {
    if items.len() == 0 {
        0
    } else {
        spec_item_y(items, ms, items.len() as int) - MENU_LIST_GAP
    }
}

/// Stacked item positions stay within the popup coordinate window.
proof fn lemma_item_y_bounds(items: Seq<MenuItem>, ms: Seq<ItemMetric>, i: int)
    requires
        0 <= i <= items.len(),
        items.len() <= MENU_ITEMS_MAX,
        items.len() == ms.len(),
        forall|j: int| 0 <= j < ms.len() ==> metric_wf(#[trigger] ms[j]),
    ensures
        0 <= spec_item_y(items, ms, i) <= i * (MENU_METRIC_MAX + MENU_LIST_GAP + 32),
    decreases i,
{
    if i > 0 {
        lemma_item_y_bounds(items, ms, i - 1);
        assert((i - 1) * (MENU_METRIC_MAX + MENU_LIST_GAP + 32) + (MENU_METRIC_MAX
            + MENU_LIST_GAP + 32) == i * (MENU_METRIC_MAX + MENU_LIST_GAP + 32))
            by (nonlinear_arith);
    }
}

/// The widest requested width is a real item width, and bounded.
proof fn lemma_max_width_bounds(items: Seq<MenuItem>, ms: Seq<ItemMetric>, i: int)
    requires
        0 <= i <= items.len(),
        items.len() == ms.len(),
        forall|j: int| 0 <= j < ms.len() ==> metric_wf(#[trigger] ms[j]),
    ensures
        0 <= spec_max_width(items, ms, i) <= MENU_METRIC_MAX + SUB_MENU_INDICATOR_WIDTH,
    decreases i,
{
    if i > 0 {
        lemma_max_width_bounds(items, ms, i - 1);
    }
}

impl Menu {
    /// Lays the popup out: every item gets its slot rectangle (stacked with
    /// gaps, all as wide as the widest item but at least the minimum
    /// width), the list rectangle wraps them inside the border and margin,
    /// and a list taller than `max_height` switches the menu into scrolling
    /// mode with the list clamped between scroll zones. Returns the
    /// popup's outer width and height.
    #[verifier::rlimit(50)]
    pub fn calc_popup_menu_size(&mut self, metrics: &Vec<ItemMetric>, max_height: i32)
        -> (size: (i32, i32))
        requires
            menu_wf(*old(self)),
            metrics@.len() == old(self).items@.len(),
            forall|j: int| 0 <= j < metrics@.len() ==> metric_wf(#[trigger] metrics@[j]),
            0 <= max_height <= COORD_MAX,
        ensures
            menu_wf(*final(self)),
            ({
                let items = old(self).items@;
                let ms = metrics@;
                let lw = spec_list_width(items, ms);
                let lh = spec_list_height(items, ms);
                let width = lw + 2 * (MENU_BORDER_WIDTH + MENU_MARGIN);
                let height0 = lh + 2 * (MENU_BORDER_WIDTH + MENU_MARGIN);
                let scrolling = height0 >= max_height;
                let height = if scrolling {
                    max_height as int
                } else {
                    height0
                };
                &&& size.0 == width
                &&& size.1 == height
                &&& final(self).is_scrolling == (old(self).is_scrolling || scrolling)
                &&& final(self).items@.len() == items.len()
                &&& (forall|j: int| 0 <= j < items.len() ==> item_keeps_content(
                    #[trigger] final(self).items@[j], items[j]))
                &&& (forall|j: int| 0 <= j < items.len() ==> rect_of(
                    #[trigger] final(self).items@[j]) == (Rect {
                    left: 0,
                    top: spec_item_y(items, ms, j) as i32,
                    right: lw as i32,
                    bottom: (spec_item_y(items, ms, j) + spec_item_height(items[j],
                        ms[j])) as i32,
                }))
                &&& final(self).menu_list_rect == (if scrolling {
                    Rect {
                        left: (MENU_BORDER_WIDTH + MENU_MARGIN) as i32,
                        top: MENU_MARGIN as i32,
                        right: (MENU_BORDER_WIDTH + MENU_MARGIN + lw) as i32,
                        bottom: (height - MENU_MARGIN) as i32,
                    }
                } else {
                    Rect {
                        left: (MENU_BORDER_WIDTH + MENU_MARGIN) as i32,
                        top: (MENU_BORDER_WIDTH + MENU_MARGIN) as i32,
                        right: (MENU_BORDER_WIDTH + MENU_MARGIN + lw) as i32,
                        bottom: (MENU_BORDER_WIDTH + MENU_MARGIN + lh) as i32,
                    }
                })
            }),
            final(self).window == old(self).window,
            final(self).focused_item_index == old(self).focused_item_index,
            final(self).scroll_position == old(self).scroll_position,
    {
        let ghost items0 = self.items@;
        let ghost ms = metrics@;
        let n = self.items.len();
        proof {
            lemma_max_width_bounds(items0, ms, n as int);
            lemma_item_y_bounds(items0, ms, n as int);
        }

        // First pass: place every item and find the widest request.
        let mut org_y: i32 = 0;
        let mut max_w: i32 = 0;
        let mut i: usize = 0;
        while i < n
            invariant
                menu_wf(*self),
                items0 == old(self).items@,
                ms == metrics@,
                n == items0.len() <= MENU_ITEMS_MAX,
                ms.len() == n,
                forall|j: int| 0 <= j < ms.len() ==> metric_wf(#[trigger] ms[j]),
                0 <= i <= n,
                self.items@.len() == n,
                org_y == spec_item_y(items0, ms, i as int),
                0 <= org_y <= 0x00A0_0000,
                max_w == spec_max_width(items0, ms, i as int),
                forall|j: int| i <= j < n ==> #[trigger] self.items@[j] == items0[j],
                forall|j: int| 0 <= j < i ==> rect_of(#[trigger] self.items@[j]) == (Rect {
                    left: 0,
                    top: spec_item_y(items0, ms, j) as i32,
                    right: 0,
                    bottom: (spec_item_y(items0, ms, j) + spec_item_height(items0[j],
                        ms[j])) as i32,
                }),
                forall|j: int| 0 <= j < i ==> item_keeps_content(#[trigger] self.items@[j],
                    items0[j]),
                *self == (Menu { items: self.items, ..*old(self) }),
            decreases n - i,
        {
            proof {
                lemma_item_y_bounds(items0, ms, i as int);
                lemma_item_y_bounds(items0, ms, i + 1);
                lemma_max_width_bounds(items0, ms, i as int);
                lemma_max_width_bounds(items0, ms, i + 1);
                let ii: int = i as int;
                assert((ii + 1) * (MENU_METRIC_MAX + MENU_LIST_GAP + 32) <= 1024 * 8226)
                    by (nonlinear_arith)
                    requires
                        0 <= ii,
                        ii + 1 <= 1024,
                ;
                assert(spec_item_y(items0, ms, ii + 1) <= 1024 * 8226);
            }
            let m = metrics[i];
            let item = vstd::std_specs::vec::vec_index_mut(&mut self.items, i);
            let (w, h): (i32, i32) = match item {
                MenuItem::MenuItem { rect, .. } => {
                    let h = if m.height >= 32 { m.height } else { 32 };
                    *rect = Rect { left: 0, top: org_y, right: 0, bottom: org_y + h };
                    (m.width, h)
                },
                MenuItem::SubMenu { rect, .. } => {
                    let h = if m.height >= 32 { m.height } else { 32 };
                    *rect = Rect { left: 0, top: org_y, right: 0, bottom: org_y + h };
                    (m.width + SUB_MENU_INDICATOR_WIDTH, h)
                },
                MenuItem::MenuDivider { rect } => {
                    *rect = Rect { left: 0, top: org_y, right: 0, bottom: org_y + m.height };
                    (0, m.height)
                },
            };
            proof {
                assert(h == spec_item_height(items0[i as int], ms[i as int]));
                assert(w == spec_item_width(items0[i as int], ms[i as int]));
            }
            if w > max_w {
                max_w = w;
            }
            org_y = org_y + h + MENU_LIST_GAP;
            i = i + 1;
        }
        if n > 0 {
            org_y = org_y - MENU_LIST_GAP;
        }
        let lw = if max_w >= MENU_MIN_WIDTH {
            max_w
        } else {
            MENU_MIN_WIDTH
        };

        // Second pass: widen every slot to the list width.
        let mut k: usize = 0;
        while k < n
            invariant
                menu_wf(*self),
                items0 == old(self).items@,
                ms == metrics@,
                n == items0.len() <= MENU_ITEMS_MAX,
                ms.len() == n,
                forall|j: int| 0 <= j < ms.len() ==> metric_wf(#[trigger] ms[j]),
                0 <= k <= n,
                self.items@.len() == n,
                0 < lw <= MENU_METRIC_MAX + SUB_MENU_INDICATOR_WIDTH + MENU_MIN_WIDTH,
                lw == spec_list_width(items0, ms),
                forall|j: int| 0 <= j < n ==> item_keeps_content(#[trigger] self.items@[j],
                    items0[j]),
                forall|j: int| k <= j < n ==> rect_of(#[trigger] self.items@[j]) == (Rect {
                    left: 0,
                    top: spec_item_y(items0, ms, j) as i32,
                    right: 0,
                    bottom: (spec_item_y(items0, ms, j) + spec_item_height(items0[j],
                        ms[j])) as i32,
                }),
                forall|j: int| 0 <= j < k ==> rect_of(#[trigger] self.items@[j]) == (Rect {
                    left: 0,
                    top: spec_item_y(items0, ms, j) as i32,
                    right: lw,
                    bottom: (spec_item_y(items0, ms, j) + spec_item_height(items0[j],
                        ms[j])) as i32,
                }),
                *self == (Menu { items: self.items, ..*old(self) }),
            decreases n - k,
        {
            let item = vstd::std_specs::vec::vec_index_mut(&mut self.items, k);
            match item {
                MenuItem::MenuItem { rect, .. } => {
                    rect.right = lw;
                },
                MenuItem::SubMenu { rect, .. } => {
                    rect.right = lw;
                },
                MenuItem::MenuDivider { rect } => {
                    rect.right = lw;
                },
            }
            k = k + 1;
        }

        let bm = MENU_BORDER_WIDTH + MENU_MARGIN;
        let mut height = org_y + 2 * bm;
        let width = lw + 2 * bm;
        self.menu_list_rect = Rect { left: bm, top: bm, right: bm + lw, bottom: bm + org_y };
        if height >= max_height {
            height = max_height;
            self.is_scrolling = true;
            self.menu_list_rect = Rect {
                left: bm,
                top: MENU_MARGIN,
                right: bm + lw,
                bottom: height - MENU_MARGIN,
            };
        }
        (width, height)
    }
}

/// An item keeps its identity (text, command, disabled flag, submenu)
/// while layout changes only its rectangle.
pub open spec fn item_keeps_content(a: MenuItem, b: MenuItem) -> bool {
    match (a, b) {
        (MenuItem::MenuItem { text: t1, id: i1, disabled: d1, .. },
            MenuItem::MenuItem { text: t2, id: i2, disabled: d2, .. }) => t1@ == t2@
            && i1 == i2 && d1 == d2,
        (MenuItem::SubMenu { sub_menu: s1, text: t1, .. },
            MenuItem::SubMenu { sub_menu: s2, text: t2, .. }) => t1@ == t2@ && s1 == s2,
        (MenuItem::MenuDivider { .. }, MenuItem::MenuDivider { .. }) => true,
        _ => false,
    }
}


/// Horizontal popup placement: when the popup would overflow the work
/// area's right edge, first flip it to the other side of its anchor (when
/// an anchor width was given and there is room), then clamp it to the
/// right edge, and finally never let it start left of the work area.
pub open spec fn spec_place_x(x: int, width: int, x_anchor: int, work_left: int,
    work_right: int) -> int {
    let x1 = if x + width > work_right && x_anchor != 0 && x >= width - x_anchor {
        x - width - x_anchor
    } else {
        x
    };
    let x2 = if x1 + width > work_right {
        work_right - width
    } else {
        x1
    };
    if x2 < work_left {
        work_left
    } else {
        x2
    }
}

/// Vertical popup placement: flip above the anchor when the popup would
/// overflow the bottom edge, then clamp to the bottom, then to the top.
pub open spec fn spec_place_y(y: int, height: int, y_anchor: int, work_top: int,
    work_bottom: int) -> int {
    let y1 = if y + height > work_bottom && y_anchor != 0 && y >= height + y_anchor {
        y - (height + y_anchor)
    } else {
        y
    };
    let y2 = if y1 + height > work_bottom {
        work_bottom - height
    } else {
        y1
    };
    if y2 < work_top {
        work_top
    } else {
        y2
    }
}

impl Menu {
    /// Shows the popup: clears the focus, sizes the menu against the work
    /// area's height, places the popup flip-then-clamp on each axis
    /// independently, and records the popup's screen rectangle as the open
    /// window. Returns that rectangle for the host to create the window
    /// from.
    #[verifier::rlimit(30)]
    pub fn show_popup(&mut self, x: i32, y: i32, x_anchor: i32, y_anchor: i32,
        work_area: Rect, metrics: &Vec<ItemMetric>) -> (pos: Rect)
        requires
            menu_wf(*old(self)),
            focused_sub_closed(*old(self)),
            metrics@.len() == old(self).items@.len(),
            forall|j: int| 0 <= j < metrics@.len() ==> metric_wf(#[trigger] metrics@[j]),
            COORD_MIN / 2 <= work_area.left <= COORD_MAX / 2,
            COORD_MIN / 2 <= work_area.top <= COORD_MAX / 2,
            COORD_MIN / 2 <= work_area.right <= COORD_MAX / 2,
            COORD_MIN / 2 <= work_area.bottom <= COORD_MAX / 2,
            work_area.left <= work_area.right,
            work_area.top <= work_area.bottom,
            4 * COORD_MIN <= x <= 4 * COORD_MAX,
            4 * COORD_MIN <= y <= 4 * COORD_MAX,
            4 * COORD_MIN <= x_anchor <= 4 * COORD_MAX,
            4 * COORD_MIN <= y_anchor <= 4 * COORD_MAX,
        ensures
            menu_wf(*final(self)),
            final(self).focused_item_index is None,
            final(self).window == Some(pos),
            ({
                let items = old(self).items@;
                let ms = metrics@;
                let lw = spec_list_width(items, ms);
                let lh = spec_list_height(items, ms);
                let width = lw + 2 * (MENU_BORDER_WIDTH + MENU_MARGIN);
                let height0 = lh + 2 * (MENU_BORDER_WIDTH + MENU_MARGIN);
                let max_height = work_area.bottom - work_area.top;
                let scrolling = height0 >= max_height;
                let height = if scrolling {
                    max_height
                } else {
                    height0
                };
                let px = spec_place_x(x as int, width, x_anchor as int, work_area.left as int,
                    work_area.right as int);
                let py = spec_place_y(y as int, height, y_anchor as int, work_area.top as int,
                    work_area.bottom as int);
                &&& pos == (Rect {
                    left: px as i32,
                    top: py as i32,
                    right: (px + width) as i32,
                    bottom: (py + height) as i32,
                })
                &&& final(self).is_scrolling == (old(self).is_scrolling || scrolling)
                &&& final(self).items@.len() == items.len()
                &&& (forall|j: int| 0 <= j < items.len() ==> item_keeps_content(
                    #[trigger] final(self).items@[j], items[j]))
                &&& (forall|j: int| 0 <= j < items.len() ==> rect_of(
                    #[trigger] final(self).items@[j]) == (Rect {
                    left: 0,
                    top: spec_item_y(items, ms, j) as i32,
                    right: lw as i32,
                    bottom: (spec_item_y(items, ms, j) + spec_item_height(items[j],
                        ms[j])) as i32,
                }))
            }),
    {
        self.focused_item_index = None;
        let max_height = work_area.bottom - work_area.top;
        let ghost items0 = old(self).items@;
        let (width, height) = self.calc_popup_menu_size(metrics, max_height);
        proof {
            lemma_item_y_bounds(items0, metrics@, items0.len() as int);
            lemma_max_width_bounds(items0, metrics@, items0.len() as int);
            if items0.len() > 0 {
                lemma_item_y_bounds(items0, metrics@, items0.len() - 1);
            }
        }
        let mut px = x;
        if px + width > work_area.right {
            if x_anchor != 0 && px >= width - x_anchor {
                px = px - width - x_anchor;
            }
            if px + width > work_area.right {
                px = work_area.right - width;
            }
        }
        if px < work_area.left {
            px = work_area.left;
        }
        let mut py = y;
        if py + height > work_area.bottom {
            if y_anchor != 0 && py >= height + y_anchor {
                py = py - (height + y_anchor);
            }
            if py + height > work_area.bottom {
                py = work_area.bottom - height;
            }
        }
        if py < work_area.top {
            py = work_area.top;
        }
        let pos = Rect { left: px, top: py, right: px + width, bottom: py + height };
        self.window = Some(pos);
        pos
    }
}


/// `b` is `a` with every popup closed and every focus cleared, and
/// nothing else changed: same layout and scroll state, and item for item
/// the same texts, commands, disabled flags and rectangles, all the way
/// down the tree.
pub open spec fn hidden_version(a: Menu, b: Menu) -> bool
    decreases a,
{
    &&& b.window is None
    &&& b.focused_item_index is None
    &&& b.menu_list_rect == a.menu_list_rect
    &&& b.is_scrolling == a.is_scrolling
    &&& b.scroll_position == a.scroll_position
    &&& b.items@.len() == a.items@.len()
    &&& forall|j: int| 0 <= j < a.items@.len() ==> match (#[trigger] a.items@[j],
        b.items@[j]) {
        (MenuItem::SubMenu { sub_menu: s0, text: t0, rect: r0 },
            MenuItem::SubMenu { sub_menu: s1, text: t1, rect: r1 }) => t1@ == t0@ && r1 == r0
            && hidden_version(*s0, *s1),
        (x, y) => x == y,
    }
}

/// A menu that is already fully closed is its own closed copy.
pub proof fn lemma_deep_closed_hidden_self(m: Menu)
    requires
        deep_closed(m),
    ensures
        hidden_version(m, m),
    decreases m,
{
    assert forall|j: int| 0 <= j < m.items@.len() implies match (#[trigger] m.items@[j],
        m.items@[j]) {
        (MenuItem::SubMenu { sub_menu: s0, text: t0, rect: r0 },
            MenuItem::SubMenu { sub_menu: s1, text: t1, rect: r1 }) => t1@ == t0@ && r1 == r0
            && hidden_version(*s0, *s1),
        (x, y) => x == y,
    } by {
        match m.items@[j] {
            MenuItem::SubMenu { sub_menu, .. } => {
                lemma_deep_closed_hidden_self(*sub_menu);
            },
            _ => {},
        }
    }
}

/// Closes the focused submenu's popup chain, bottom-up: the deepest open
/// popups go first, each submenu loses its focus and its window. The menu
/// itself keeps its own focus and window; afterwards its focused submenu
/// (if any) is fully closed, so the focus is free to move.
pub fn hide_sub_popups(menu: &mut Menu)
    requires
        menu_wf(*old(menu)),
    ensures
        menu_wf(*final(menu)),
        focused_sub_closed(*final(menu)),
        final(menu).window == old(menu).window,
        final(menu).focused_item_index == old(menu).focused_item_index,
        final(menu).menu_list_rect == old(menu).menu_list_rect,
        final(menu).is_scrolling == old(menu).is_scrolling,
        final(menu).scroll_position == old(menu).scroll_position,
        final(menu).items@.len() == old(menu).items@.len(),
        forall|j: int| 0 <= j < old(menu).items@.len() && old(menu).focused_item_index
            != Some(j as usize) ==> final(menu).items@[j] == old(menu).items@[j],
        forall|j: int| 0 <= j < old(menu).items@.len() ==> match (old(menu).items@[j],
            #[trigger] final(menu).items@[j]) {
            (MenuItem::SubMenu { sub_menu: s0, text: t0, rect: r0 },
                MenuItem::SubMenu { sub_menu: s1, text: t1, rect: r1 }) => t1@ == t0@
                && r1 == r0 && deep_closed(*s1) && menu_wf(*s1)
                && hidden_version(*s0, *s1),
            (a, b) => a == b,
        },
    decreases *old(menu),
{
    let ghost m0 = *menu;
    let idx = match menu.focused_item_index {
        None => {
            proof {
                assert forall|j: int| 0 <= j < menu.items@.len() implies match (
                    m0.items@[j], #[trigger] menu.items@[j]) {
                    (MenuItem::SubMenu { sub_menu: s0, text: t0, rect: r0 },
                        MenuItem::SubMenu { sub_menu: s1, text: t1, rect: r1 }) => t1@ == t0@
                        && r1 == r0 && deep_closed(*s1) && menu_wf(*s1)
                        && hidden_version(*s0, *s1),
                    (a, b) => a == b,
                } by {
                    match m0.items@[j] {
                        MenuItem::SubMenu { sub_menu, .. } => {
                            lemma_deep_closed_hidden_self(*sub_menu);
                        },
                        _ => {},
                    }
                }
            }
            return;
        },
        Some(i) => i,
    };
    proof {
        broadcast use vstd::std_specs::vec::axiom_vec_index_decreases;

        assert(decreases_to!(m0 => m0.items));
        assert(decreases_to!(m0.items => m0.items[idx as int]));
    }
    let item = vstd::std_specs::vec::vec_index_mut(&mut menu.items, idx);
    match item {
        MenuItem::SubMenu { sub_menu, .. } => {
            proof {
                assert(item_wf(m0.items@[idx as int]));
            }
            hide_sub_popups(sub_menu);
            sub_menu.focused_item_index = None;
            sub_menu.window = None;
        },
        _ => {},
    }
    proof {
        let f = idx as int;
        match (m0.items@[f], menu.items@[f]) {
            (MenuItem::SubMenu { sub_menu: s0, .. }, MenuItem::SubMenu { sub_menu: s1, .. })
                => {
                assert(deep_closed(*s1)) by {
                    assert forall|j: int| 0 <= j < s1.items@.len() implies match
                        #[trigger] s1.items@[j] {
                        MenuItem::SubMenu { sub_menu, .. } => deep_closed(*sub_menu),
                        _ => true,
                    } by {
                        if s1.focused_item_index == Some(j as usize) {
                        }
                    }
                }
                assert(menu_wf(*s1));
                assert(hidden_version(*s0, *s1)) by {
                    assert forall|j: int| 0 <= j < s0.items@.len() implies match (
                        #[trigger] s0.items@[j], s1.items@[j]) {
                        (MenuItem::SubMenu { sub_menu: a0, text: u0, rect: q0 },
                            MenuItem::SubMenu { sub_menu: a1, text: u1, rect: q1 })
                            => u1@ == u0@ && q1 == q0 && hidden_version(*a0, *a1),
                        (x, y) => x == y,
                    } by {}
                }
            },
            _ => {},
        }
        assert forall|j: int| 0 <= j < menu.items@.len() implies match (m0.items@[j],
            #[trigger] menu.items@[j]) {
            (MenuItem::SubMenu { sub_menu: s0, text: t0, rect: r0 },
                MenuItem::SubMenu { sub_menu: s1, text: t1, rect: r1 }) => t1@ == t0@
                && r1 == r0 && deep_closed(*s1) && menu_wf(*s1)
                && hidden_version(*s0, *s1),
            (a, b) => a == b,
        } by {
            if j != f {
                assert(menu.items@[j] == m0.items@[j]);
                match m0.items@[j] {
                    MenuItem::SubMenu { sub_menu, .. } => {
                        assert(item_wf(m0.items@[j]));
                        lemma_deep_closed_hidden_self(*sub_menu);
                    },
                    _ => {},
                }
            }
        }
        assert(menu_wf(*menu)) by {
            assert forall|j: int| 0 <= j < menu.items@.len() implies item_wf(
                #[trigger] menu.items@[j]) by {
                if j != f {
                    assert(menu.items@[j] == m0.items@[j]);
                    assert(item_wf(m0.items@[j]));
                }
            }
            assert forall|j: int| 0 <= j < menu.items@.len() && menu.focused_item_index
                != Some(j as usize) implies match #[trigger] menu.items@[j] {
                MenuItem::SubMenu { sub_menu, .. } => deep_closed(*sub_menu),
                _ => true,
            } by {
                if j != f {
                    assert(menu.items@[j] == m0.items@[j]);
                }
            }
        }
    }
}


/// The focused item's submenu, when its popup is open.
pub open spec fn spec_sub_popup(m: Menu) -> Option<Menu> {
    match m.focused_item_index {
        Some(i) => if i < m.items@.len() {
            match m.items@[i as int] {
                MenuItem::SubMenu { sub_menu, .. } => if sub_menu.window is Some {
                    Some(*sub_menu)
                } else {
                    None
                },
                _ => None,
            }
        } else {
            None
        },
        None => None,
    }
}

/// A chain of open popups reaches down `d` levels from this node.
pub open spec fn chain_open(m: Menu, d: int) -> bool
    decreases d,
{
    d <= 0 || (spec_sub_popup(m) is Some && chain_open(spec_sub_popup(m)->Some_0, d - 1))
}

/// The node `d` levels down the chain of open popups.
pub open spec fn menu_at_depth(m: Menu, d: int) -> Menu
    decreases d,
{
    if d <= 0 {
        m
    } else {
        match spec_sub_popup(m) {
            Some(s) => menu_at_depth(s, d - 1),
            None => m,
        }
    }
}

/// An operation the tracker applies to the menu it is currently tracking.
#[derive(Clone, Copy, PartialEq, Eq, Structural, Debug)]
pub enum CurrentMenuOp {
    SelectFirst,
    SelectLast,
    SelectNext,
    SelectPrevious,
    HideSubPopups,
    Select(usize),
    ClearFocus,
}

/// Applies one focus operation to the node `d` levels down the open-popup
/// chain; everything above keeps its focus and every window on the chain
/// stays as it is.
#[verifier::rlimit(50)]
pub fn apply_at_depth(menu: &mut Menu, d: usize, op: CurrentMenuOp)
    requires
        menu_wf(*old(menu)),
        chain_open(*old(menu), d as int),
        op is HideSubPopups || focused_sub_closed(menu_at_depth(*old(menu), d as int)),
        match op {
            CurrentMenuOp::Select(i) => i < menu_at_depth(*old(menu), d as int).items@.len(),
            _ => true,
        },
    ensures
        menu_wf(*final(menu)),
        chain_open(*final(menu), d as int),
        forall|k: int| 0 <= k <= d ==> #[trigger] menu_at_depth(*final(menu), k).window
            == menu_at_depth(*old(menu), k).window,
        forall|k: int| 0 <= k < d ==> #[trigger] menu_at_depth(*final(menu),
            k).focused_item_index == menu_at_depth(*old(menu), k).focused_item_index,
        ({
            let cur0 = menu_at_depth(*old(menu), d as int);
            let cur1 = menu_at_depth(*final(menu), d as int);
            &&& cur1.items@.len() == cur0.items@.len()
            &&& focused_sub_closed(cur1)
            &&& menu_wf(cur1)
            &&& match op {
                CurrentMenuOp::SelectFirst => cur1.focused_item_index == (
                    match spec_scan_up(cur0.items@, 0) {
                        Some(j) => Some(j as usize),
                        None => cur0.focused_item_index,
                    }),
                CurrentMenuOp::SelectLast => cur1.focused_item_index == (
                    match spec_scan_down(cur0.items@, cur0.items@.len() - 1) {
                        Some(j) => Some(j as usize),
                        None => cur0.focused_item_index,
                    }),
                CurrentMenuOp::SelectNext => cur1.focused_item_index == (
                    match cur0.focused_item_index {
                        Some(f) => match spec_scan_up(cur0.items@, f + 1) {
                            Some(j) => Some(j as usize),
                            None => Some(f),
                        },
                        None => None::<usize>,
                    }),
                CurrentMenuOp::SelectPrevious => cur1.focused_item_index == (
                    match cur0.focused_item_index {
                        Some(f) => match spec_scan_down(cur0.items@, f - 1) {
                            Some(j) => Some(j as usize),
                            None => Some(f),
                        },
                        None => None::<usize>,
                    }),
                CurrentMenuOp::HideSubPopups => cur1.focused_item_index
                    == cur0.focused_item_index,
                CurrentMenuOp::Select(i) => cur1.focused_item_index == Some(i),
                CurrentMenuOp::ClearFocus => cur1.focused_item_index is None,
            }
        }),
    decreases d,
{
    let ghost m0 = *menu;
    if d == 0 {
        match op {
            CurrentMenuOp::SelectFirst => menu.select_first(),
            CurrentMenuOp::SelectLast => menu.select_last(),
            CurrentMenuOp::SelectNext => menu.select_next(),
            CurrentMenuOp::SelectPrevious => menu.select_previous(),
            CurrentMenuOp::HideSubPopups => hide_sub_popups(menu),
            CurrentMenuOp::Select(i) => menu.select_item(Some(i)),
            CurrentMenuOp::ClearFocus => menu.select_item(None),
        }
        return;
    }
    let idx = match menu.focused_item_index {
        Some(i) => i,
        None => {
            proof {
                assert(false);
            }
            return;
        },
    };
    let item = vstd::std_specs::vec::vec_index_mut(&mut menu.items, idx);
    match item {
        MenuItem::SubMenu { sub_menu, .. } => {
            proof {
                assert(item_wf(m0.items@[idx as int]));
                assert(spec_sub_popup(m0) == Some(*m0.items@[idx as int]->SubMenu_sub_menu));
            }
            apply_at_depth(sub_menu, d - 1, op);
        },
        _ => {
            proof {
                assert(false);
            }
        },
    }
    proof {
        let f = idx as int;
        assert(menu.focused_item_index == m0.focused_item_index);
        let s1 = *menu.items@[f]->SubMenu_sub_menu;
        let s0 = *m0.items@[f]->SubMenu_sub_menu;
        assert(menu_at_depth(s1, 0).window == menu_at_depth(s0, 0).window);
        assert(s1.window == s0.window);
        assert(s0.window is Some);
        assert(menu_wf(*menu)) by {
            assert forall|j: int| 0 <= j < menu.items@.len() implies item_wf(
                #[trigger] menu.items@[j]) by {
                if j != f {
                    assert(menu.items@[j] == m0.items@[j]);
                    assert(item_wf(m0.items@[j]));
                }
            }
            assert forall|j: int| 0 <= j < menu.items@.len() && menu.focused_item_index
                != Some(j as usize) implies match #[trigger] menu.items@[j] {
                MenuItem::SubMenu { sub_menu, .. } => deep_closed(*sub_menu),
                _ => true,
            } by {
                if j != f {
                    assert(menu.items@[j] == m0.items@[j]);
                }
            }
        }
        assert(spec_sub_popup(*menu) is Some);
        assert(menu_at_depth(*menu, d as int) == menu_at_depth(spec_sub_popup(*menu)->Some_0,
            d - 1));
        assert forall|k: int| 0 <= k <= d implies #[trigger] menu_at_depth(*menu, k).window
            == menu_at_depth(m0, k).window by {
            if k > 0 {
                assert(menu_at_depth(*menu, k) == menu_at_depth(spec_sub_popup(
                    *menu)->Some_0, k - 1));
                assert(menu_at_depth(m0, k) == menu_at_depth(spec_sub_popup(m0)->Some_0,
                    k - 1));
            }
        }
        assert forall|k: int| 0 <= k < d implies #[trigger] menu_at_depth(*menu,
            k).focused_item_index == menu_at_depth(m0, k).focused_item_index by {
            if k > 0 {
                assert(menu_at_depth(*menu, k) == menu_at_depth(spec_sub_popup(
                    *menu)->Some_0, k - 1));
                assert(menu_at_depth(m0, k) == menu_at_depth(spec_sub_popup(m0)->Some_0,
                    k - 1));
            }
        }
    }
}


/// What executing the focused item of a menu amounts to: an enabled leaf
/// posts its command, a submenu asks to be opened, anything else does
/// nothing.
#[derive(Clone, Copy, PartialEq, Eq, Structural, Debug)]
pub enum ExecutionResult {
    Executed(u32),
    NoExecuted,
    ShownPopup,
}

/// What executing the focused item of `m` yields.
pub open spec fn spec_execute(m: Menu) -> ExecutionResult {
    match m.focused_item_index {
        Some(i) => if i < m.items@.len() {
            match m.items@[i as int] {
                MenuItem::MenuItem { id, disabled, .. } => if disabled {
                    ExecutionResult::NoExecuted
                } else {
                    ExecutionResult::Executed(id)
                },
                MenuItem::SubMenu { .. } => ExecutionResult::ShownPopup,
                MenuItem::MenuDivider { .. } => ExecutionResult::NoExecuted,
            }
        } else {
            ExecutionResult::NoExecuted
        },
        None => ExecutionResult::NoExecuted,
    }
}

/// Reads the focus of the node `d` levels down the open-popup chain.
pub fn focused_at_depth(menu: &Menu, d: usize) -> (r: Option<usize>)
    requires
        menu_wf(*menu),
        chain_open(*menu, d as int),
    ensures
        r == menu_at_depth(*menu, d as int).focused_item_index,
    decreases d,
{
    if d == 0 {
        return menu.focused_item_index;
    }
    let idx = match menu.focused_item_index {
        Some(i) => i,
        None => {
            proof {
                assert(false);
            }
            return None;
        },
    };
    match &menu.items[idx] {
        MenuItem::SubMenu { sub_menu, .. } => focused_at_depth(sub_menu, d - 1),
        _ => {
            proof {
                assert(false);
            }
            None
        },
    }
}

/// Executes the focused item of the node `d` levels down the chain.
pub fn execute_at_depth(menu: &Menu, d: usize) -> (r: ExecutionResult)
    requires
        menu_wf(*menu),
        chain_open(*menu, d as int),
    ensures
        r == spec_execute(menu_at_depth(*menu, d as int)),
    decreases d,
{
    if d == 0 {
        let idx = match menu.focused_item_index {
            Some(i) => i,
            None => {
                return ExecutionResult::NoExecuted;
            },
        };
        return match &menu.items[idx] {
            MenuItem::MenuItem { id, disabled, .. } => if *disabled {
                ExecutionResult::NoExecuted
            } else {
                ExecutionResult::Executed(*id)
            },
            MenuItem::SubMenu { .. } => ExecutionResult::ShownPopup,
            MenuItem::MenuDivider { .. } => ExecutionResult::NoExecuted,
        };
    }
    let idx = match menu.focused_item_index {
        Some(i) => i,
        None => {
            proof {
                assert(false);
            }
            return ExecutionResult::NoExecuted;
        },
    };
    match &menu.items[idx] {
        MenuItem::SubMenu { sub_menu, .. } => execute_at_depth(sub_menu, d - 1),
        _ => {
            proof {
                assert(false);
            }
            ExecutionResult::NoExecuted
        },
    }
}

/// Hit-tests the node `d` levels down the chain.
pub fn find_at_depth(menu: &Menu, d: usize, point: Point) -> (r: (HitTest, Point))
    requires
        menu_wf(*menu),
        chain_open(*menu, d as int),
        point.in_range(),
    ensures
        r == spec_find_item(menu_at_depth(*menu, d as int), point),
    decreases d,
{
    if d == 0 {
        return find_item_by_coordinates(menu, point);
    }
    let idx = match menu.focused_item_index {
        Some(i) => i,
        None => {
            proof {
                assert(false);
            }
            return (HitTest::Nowhere, point);
        },
    };
    match &menu.items[idx] {
        MenuItem::SubMenu { sub_menu, .. } => find_at_depth(sub_menu, d - 1, point),
        _ => {
            proof {
                assert(false);
            }
            (HitTest::Nowhere, point)
        },
    }
}

/// The deepest open popup under the point, searched from the end of the
/// chain upward (open popups stack over their parents).
pub open spec fn spec_menu_from_point(m: Menu, p: Point, d: int) -> Option<int>
    decreases d,
{
    if d <= 0 {
        window_depth_hit(m, p)
    } else {
        match spec_sub_popup(m) {
            Some(s) => match spec_menu_from_point(s, p, d - 1) {
                Some(k) => Some(k + 1),
                None => window_depth_hit(m, p),
            },
            None => window_depth_hit(m, p),
        }
    }
}

/// Helper: whether this node's own window holds the point.
pub open spec fn window_depth_hit(m: Menu, p: Point) -> Option<int> {
    match m.window {
        Some(w) => if w.spec_contains(p) {
            Some(0int)
        } else {
            None
        },
        None => None,
    }
}

/// Finds the deepest open popup under the point, as a depth along the
/// chain; deeper popups win because they stack over their parents.
pub fn menu_from_point(menu: &Menu, d: usize, point: Point) -> (r: Option<usize>)
    requires
        menu_wf(*menu),
        chain_open(*menu, d as int),
        point.in_range(),
    ensures
        match r {
            Some(k) => Some(k as int) == spec_menu_from_point(*menu, point, d as int)
                && k <= d,
            None => spec_menu_from_point(*menu, point, d as int) is None,
        },
    decreases d,
{
    if d > 0 {
        let idx = match menu.focused_item_index {
            Some(i) => i,
            None => {
                proof {
                    assert(false);
                }
                return None;
            },
        };
        match &menu.items[idx] {
            MenuItem::SubMenu { sub_menu, .. } => {
                let deeper = menu_from_point(sub_menu, d - 1, point);
                if let Some(k) = deeper {
                    return Some(k + 1);
                }
            },
            _ => {
                proof {
                    assert(false);
                }
            },
        }
    }
    match menu.window {
        Some(w) => if w.contains(point) {
            Some(0)
        } else {
            None
        },
        None => None,
    }
}


/// The screen rectangle the focused submenu's popup takes when it opens:
/// sized as `show_popup` sizes it from the measurements, anchored to the
/// right of the parent item's adjusted rectangle inside the parent's
/// window, and flipped-then-clamped into the work area on each axis.
pub open spec fn spec_sub_popup_rect(cur: Menu, ms: Seq<ItemMetric>, work: Rect) -> Rect {
    let i = cur.focused_item_index->Some_0 as int;
    let sub = *cur.items@[i]->SubMenu_sub_menu;
    let w = cur.window->Some_0;
    let ir = spec_adjusted_rect(cur, rect_of(cur.items@[i]));
    let lw = spec_list_width(sub.items@, ms);
    let lh = spec_list_height(sub.items@, ms);
    let width = lw + 2 * (MENU_BORDER_WIDTH + MENU_MARGIN);
    let height0 = lh + 2 * (MENU_BORDER_WIDTH + MENU_MARGIN);
    let max_height = work.bottom - work.top;
    let height = if height0 >= max_height {
        max_height as int
    } else {
        height0
    };
    let px = spec_place_x(w.left + ir.2 - MENU_BORDER_WIDTH, width,
        ir.0 - ir.2 + MENU_BORDER_WIDTH, work.left as int, work.right as int);
    let py = spec_place_y(w.top + ir.1, height, ir.1 - ir.3 - 2 * MENU_MARGIN,
        work.top as int, work.bottom as int);
    Rect {
        left: px as i32,
        top: py as i32,
        right: (px + width) as i32,
        bottom: (py + height) as i32,
    }
}

/// Opens the focused submenu of the node `d` levels down the chain, placed
/// to the right of its parent item and clipped to the work area; an
/// already-open submenu, or a focus that is no submenu, opens nothing. The
/// measurements must cover the submenu's items. Returns the new popup's
/// screen rectangle for the host, which afterwards tracks one level
/// deeper.
#[verifier::rlimit(50)]
pub fn show_sub_popup_at_depth(menu: &mut Menu, d: usize, work_area: Rect,
    metrics: &Vec<ItemMetric>) -> (r: Option<Rect>)
    requires
        menu_wf(*old(menu)),
        chain_open(*old(menu), d as int),
        forall|j: int| 0 <= j < metrics@.len() ==> metric_wf(#[trigger] metrics@[j]),
        COORD_MIN / 2 <= work_area.left <= COORD_MAX / 2,
        COORD_MIN / 2 <= work_area.top <= COORD_MAX / 2,
        COORD_MIN / 2 <= work_area.right <= COORD_MAX / 2,
        COORD_MIN / 2 <= work_area.bottom <= COORD_MAX / 2,
        work_area.left <= work_area.right,
        work_area.top <= work_area.bottom,
        focused_sub_closed(menu_at_depth(*old(menu), d as int)),
        ({
            let cur = menu_at_depth(*old(menu), d as int);
            match cur.focused_item_index {
                Some(i) => i < cur.items@.len() && (match cur.items@[i as int] {
                    MenuItem::SubMenu { sub_menu, .. } => metrics@.len()
                        == sub_menu.items@.len(),
                    _ => true,
                }),
                None => true,
            }
        }),
    ensures
        menu_wf(*final(menu)),
        chain_open(*final(menu), d as int),
        r is Some ==> chain_open(*final(menu), d + 1),
        r is None ==> focused_sub_closed(menu_at_depth(*final(menu), d as int)),
        forall|k: int| 0 <= k <= d ==> #[trigger] menu_at_depth(*final(menu), k).window
            == menu_at_depth(*old(menu), k).window,
        forall|k: int| 0 <= k <= d ==> #[trigger] menu_at_depth(*final(menu),
            k).focused_item_index == menu_at_depth(*old(menu), k).focused_item_index,
        r is Some ==> menu_at_depth(*final(menu), d + 1).window == Some(r->Some_0)
            && menu_at_depth(*final(menu), d + 1).focused_item_index is None
            && focused_sub_closed(menu_at_depth(*final(menu), d + 1)),
        ({
            let cur = menu_at_depth(*old(menu), d as int);
            &&& (r is Some <==> spec_focused_closed_submenu(cur) && cur.window is Some)
            &&& r is Some ==> r->Some_0 == spec_sub_popup_rect(cur, metrics@, work_area)
        }),
    decreases d,
{
    let ghost m0 = *menu;
    if d > 0 {
        let idx = match menu.focused_item_index {
            Some(i) => i,
            None => {
                proof {
                    assert(false);
                }
                return None;
            },
        };
        proof {
            broadcast use vstd::std_specs::vec::axiom_vec_index_decreases;

            assert(decreases_to!(m0 => m0.items));
            assert(decreases_to!(m0.items => m0.items[idx as int]));
        }
        let item = vstd::std_specs::vec::vec_index_mut(&mut menu.items, idx);
        let r = match item {
            MenuItem::SubMenu { sub_menu, .. } => {
                proof {
                    assert(item_wf(m0.items@[idx as int]));
                }
                show_sub_popup_at_depth(sub_menu, d - 1, work_area, metrics)
            },
            _ => {
                proof {
                    assert(false);
                }
                None
            },
        };
        proof {
            let f = idx as int;
            let s1 = *menu.items@[f]->SubMenu_sub_menu;
            let s0 = *m0.items@[f]->SubMenu_sub_menu;
            assert(menu_at_depth(s1, 0).window == menu_at_depth(s0, 0).window);
            assert(s1.window == s0.window);
            assert(menu_wf(*menu)) by {
                assert forall|j: int| 0 <= j < menu.items@.len() implies item_wf(
                    #[trigger] menu.items@[j]) by {
                    if j != f {
                        assert(menu.items@[j] == m0.items@[j]);
                        assert(item_wf(m0.items@[j]));
                    }
                }
                assert forall|j: int| 0 <= j < menu.items@.len() && menu.focused_item_index
                    != Some(j as usize) implies match #[trigger] menu.items@[j] {
                    MenuItem::SubMenu { sub_menu, .. } => deep_closed(*sub_menu),
                    _ => true,
                } by {
                    if j != f {
                        assert(menu.items@[j] == m0.items@[j]);
                    }
                }
            }
            assert(spec_sub_popup(*menu) == Some(s1));
            assert forall|k: int| 0 <= k <= d implies #[trigger] menu_at_depth(*menu,
                k).window == menu_at_depth(m0, k).window by {
                if k > 0 {
                    assert(menu_at_depth(*menu, k) == menu_at_depth(s1, k - 1));
                    assert(menu_at_depth(m0, k) == menu_at_depth(s0, k - 1));
                }
            }
            assert forall|k: int| 0 <= k <= d implies #[trigger] menu_at_depth(*menu,
                k).focused_item_index == menu_at_depth(m0, k).focused_item_index by {
                if k > 0 {
                    assert(menu_at_depth(*menu, k) == menu_at_depth(s1, k - 1));
                    assert(menu_at_depth(m0, k) == menu_at_depth(s0, k - 1));
                }
            }
            assert(menu_at_depth(m0, d as int) == menu_at_depth(s0, d - 1));
            if r is Some {
                assert(menu_at_depth(*menu, d + 1) == menu_at_depth(s1, d as int));
            } else {
                assert(menu_at_depth(*menu, d as int) == menu_at_depth(s1, d - 1));
            }
        }
        return r;
    }
    let idx = match menu.focused_item_index {
        Some(i) => i,
        None => {
            return None;
        },
    };
    let w = match menu.window {
        Some(w) => w,
        None => {
            return None;
        },
    };
    let list_left = menu.menu_list_rect.left;
    let list_top = menu.menu_list_rect.top;
    let scroll_offset = if menu.is_scrolling {
        menu.scroll_position
    } else {
        0
    };
    let item = vstd::std_specs::vec::vec_index_mut(&mut menu.items, idx);
    let r = match item {
        MenuItem::SubMenu { sub_menu, rect, .. } => {
            if sub_menu.window.is_some() {
                None
            } else {
                proof {
                    assert(item_wf(m0.items@[idx as int]));
                    assert(deep_closed(*m0.items@[idx as int]->SubMenu_sub_menu));
                }
                // Anchor the child to the right of the parent item, with
                // flip anchors sized from the item's own extent.
                let ir = Rect {
                    left: rect.left + list_left,
                    top: rect.top + list_top - scroll_offset,
                    right: rect.right + list_left,
                    bottom: rect.bottom + list_top - scroll_offset,
                };
                let x = w.left + ir.right - MENU_BORDER_WIDTH;
                let y = w.top + ir.top;
                let x_anchor = ir.left - ir.right + MENU_BORDER_WIDTH;
                let y_anchor = ir.top - ir.bottom - 2 * MENU_MARGIN;
                let pos = sub_menu.show_popup(x, y, x_anchor, y_anchor, work_area, metrics);
                Some(pos)
            }
        },
        _ => None,
    };
    proof {
        let f = idx as int;
        assert(menu.focused_item_index == m0.focused_item_index);
        assert(menu_wf(*menu)) by {
            assert forall|j: int| 0 <= j < menu.items@.len() implies item_wf(
                #[trigger] menu.items@[j]) by {
                if j != f {
                    assert(menu.items@[j] == m0.items@[j]);
                    assert(item_wf(m0.items@[j]));
                }
            }
            assert forall|j: int| 0 <= j < menu.items@.len() && menu.focused_item_index
                != Some(j as usize) implies match #[trigger] menu.items@[j] {
                MenuItem::SubMenu { sub_menu, .. } => deep_closed(*sub_menu),
                _ => true,
            } by {
                if j != f {
                    assert(menu.items@[j] == m0.items@[j]);
                }
            }
        }
        if r is None {
            assert(menu.items@[f] == m0.items@[f]);
            assert(focused_sub_closed(*menu));
        } else {
            assert(menu.items@[f] is SubMenu);
            let snew = *menu.items@[f]->SubMenu_sub_menu;
            assert(snew.window is Some);
            assert(spec_sub_popup(*menu) == Some(snew));
            assert(menu_at_depth(snew, 0) == snew);
            assert(menu_at_depth(*menu, 1) == snew);
            assert(chain_open(snew, 0));
            assert(chain_open(*menu, 1));
            assert(spec_focused_closed_submenu(m0) && m0.window is Some);
            let ir = spec_adjusted_rect(m0, rect_of(m0.items@[f]));
            assert(r->Some_0 == spec_sub_popup_rect(m0, metrics@, work_area));
        }
        if r is None {
            assert(!(spec_focused_closed_submenu(m0) && m0.window is Some));
        }
    }
    r
}


/// A chain open to depth `d` is open to every shallower depth.
pub proof fn lemma_chain_open_mono(m: Menu, d: int, k: int)
    requires
        chain_open(m, d),
        0 <= k <= d,
    ensures
        chain_open(m, k),
    decreases d,
{
    if k > 0 && d > 0 {
        lemma_chain_open_mono(spec_sub_popup(m)->Some_0, d - 1, k - 1);
    }
}

/// A hit answered by the item scan names a real item.
pub proof fn lemma_hit_item_in_range(m: Menu, p: Point, j: int)
    requires
        spec_hit_item(m, p, j) is Some,
        0 <= j,
    ensures
        j <= spec_hit_item(m, p, j)->Some_0 < m.items@.len(),
    decreases m.items@.len() - j,
{
    if j < m.items@.len() && !spec_point_in_item(m, p, m.items@[j]) {
        lemma_hit_item_in_range(m, p, j + 1);
    }
}

/// The focused item is a submenu whose popup is not open yet.
pub open spec fn spec_focused_closed_submenu(m: Menu) -> bool {
    match m.focused_item_index {
        Some(i) => i < m.items@.len() && (match m.items@[i as int] {
            MenuItem::SubMenu { sub_menu, .. } => sub_menu.window is None,
            _ => false,
        }),
        None => false,
    }
}

/// Whether the node `d` levels down focuses a closed submenu (one that
/// hover or Right should open).
pub fn focused_closed_submenu_at(menu: &Menu, d: usize) -> (r: bool)
    requires
        menu_wf(*menu),
        chain_open(*menu, d as int),
    ensures
        r == spec_focused_closed_submenu(menu_at_depth(*menu, d as int)),
    decreases d,
{
    if d == 0 {
        let idx = match menu.focused_item_index {
            Some(i) => i,
            None => {
                return false;
            },
        };
        return match &menu.items[idx] {
            MenuItem::SubMenu { sub_menu, .. } => sub_menu.window.is_none(),
            _ => false,
        };
    }
    let idx = match menu.focused_item_index {
        Some(i) => i,
        None => {
            proof {
                assert(false);
            }
            return false;
        },
    };
    match &menu.items[idx] {
        MenuItem::SubMenu { sub_menu, .. } => focused_closed_submenu_at(sub_menu, d - 1),
        _ => {
            proof {
                assert(false);
            }
            false
        },
    }
}

/// The keys a tracking session reacts to, decoded by the host.
#[derive(Clone, Copy, PartialEq, Eq, Structural, Debug)]
pub enum MenuKey {
    Up,
    Down,
    Home,
    End,
    Left,
    Right,
    Escape,
    Dismiss,
    Other,
}

/// What one tracked event asks of the host: end the session, post a
/// command, or measure and open the focused submenu.
#[derive(Clone, Copy, PartialEq, Eq, Structural, Debug)]
pub struct TrackStep {
    pub exit: bool,
    pub command: Option<u32>,
    pub want_open: bool,
}

/// One modal tracking session: the owned menu tree, how deep along the
/// chain of open popups input currently goes, and the last pointer
/// position.
pub struct Tracker {
    pub top_menu: Menu,
    pub current_depth: usize,
    pub point: Point,
}

/// A healthy session: a well-formed tree, an open chain down to the
/// current menu, whose own focused submenu is closed.
pub open spec fn tracker_wf(t: Tracker) -> bool {
    &&& menu_wf(t.top_menu)
    &&& chain_open(t.top_menu, t.current_depth as int)
    &&& focused_sub_closed(menu_at_depth(t.top_menu, t.current_depth as int))
    &&& t.current_depth < 0x1000
}

/// A step that asks for nothing.
pub fn track_step_none() -> (r: TrackStep)
    ensures
        r == (TrackStep { exit: false, command: None::<u32>, want_open: false }),
{
    TrackStep { exit: false, command: None, want_open: false }
}

impl Tracker {
    /// Begins a session over a shown top-level popup.
    pub fn new(top_menu: Menu, point: Point) -> (t: Tracker)
        requires
            menu_wf(top_menu),
            focused_sub_closed(top_menu),
            top_menu.window is Some,
        ensures
            tracker_wf(t),
            t.top_menu == top_menu,
            t.current_depth == 0,
            t.point == point,
    {
        Tracker { top_menu, current_depth: 0, point }
    }

    /// Ends the session: closes the whole chain of open popups bottom-up,
    /// clears the root's focus, and closes the root popup itself; the host
    /// destroys the popup windows. The tree survives, fully closed, for a
    /// later session.
    pub fn exit_tracking(&mut self)
        requires
            tracker_wf(*old(self)),
        ensures
            tracker_wf(*final(self)),
            menu_wf(final(self).top_menu),
            deep_closed(final(self).top_menu),
            hidden_version(old(self).top_menu, final(self).top_menu),
            final(self).current_depth == 0,
            final(self).point == old(self).point,
    {
        let ghost t0 = self.top_menu;
        hide_sub_popups(&mut self.top_menu);
        self.top_menu.select_item(None);
        self.top_menu.window = None;
        self.current_depth = 0;
        proof {
            assert forall|i: int| 0 <= i < self.top_menu.items@.len() implies match
                #[trigger] self.top_menu.items@[i] {
                MenuItem::SubMenu { sub_menu, .. } => deep_closed(*sub_menu),
                _ => true,
            } by {}
            assert(hidden_version(t0, self.top_menu)) by {
                assert forall|j: int| 0 <= j < t0.items@.len() implies match (
                    #[trigger] t0.items@[j], self.top_menu.items@[j]) {
                    (MenuItem::SubMenu { sub_menu: s0, text: u0, rect: q0 },
                        MenuItem::SubMenu { sub_menu: s1, text: u1, rect: q1 })
                        => u1@ == u0@ && q1 == q0 && hidden_version(*s0, *s1),
                    (x, y) => x == y,
                } by {}
            }
        }
    }

    /// Handles one key: Up/Down/Home/End move the focus in the current
    /// menu without wrapping and skipping dividers; Left closes the
    /// current submenu and returns to its parent; Right asks the host to
    /// measure and open the focused submenu; Escape closes one level, or
    /// ends the session at the root; the dismiss chord ends the session
    /// without executing.
    pub fn handle_key(&mut self, key: MenuKey) -> (r: TrackStep)
        requires
            tracker_wf(*old(self)),
        ensures
            tracker_wf(*final(self)),
            r.command is None,
            final(self).point == old(self).point,
            ({
                let d = old(self).current_depth as int;
                let cur0 = menu_at_depth(old(self).top_menu, d);
                let cur1 = menu_at_depth(final(self).top_menu, d);
                match key {
                    MenuKey::Up => !r.exit && !r.want_open && final(self).current_depth == d
                        && cur1.focused_item_index == (match cur0.focused_item_index {
                        Some(f) => match spec_scan_down(cur0.items@, f - 1) {
                            Some(j) => Some(j as usize),
                            None => Some(f),
                        },
                        None => None::<usize>,
                    }),
                    MenuKey::Down => !r.exit && !r.want_open && final(self).current_depth == d
                        && cur1.focused_item_index == (match cur0.focused_item_index {
                        Some(f) => match spec_scan_up(cur0.items@, f + 1) {
                            Some(j) => Some(j as usize),
                            None => Some(f),
                        },
                        None => None::<usize>,
                    }),
                    MenuKey::Home => !r.exit && !r.want_open && final(self).current_depth == d
                        && cur1.focused_item_index == (match spec_scan_up(cur0.items@, 0) {
                        Some(j) => Some(j as usize),
                        None => cur0.focused_item_index,
                    }),
                    MenuKey::End => !r.exit && !r.want_open && final(self).current_depth == d
                        && cur1.focused_item_index == (match spec_scan_down(cur0.items@,
                        cur0.items@.len() - 1) {
                        Some(j) => Some(j as usize),
                        None => cur0.focused_item_index,
                    }),
                    MenuKey::Left => {
                        &&& !r.exit && !r.want_open
                        &&& final(self).current_depth == (if d > 0 {
                            d - 1
                        } else {
                            0
                        })
                        &&& d == 0 ==> *final(self) == *old(self)
                        &&& d > 0 ==> menu_at_depth(final(self).top_menu,
                            d - 1).focused_item_index == menu_at_depth(old(self).top_menu,
                            d - 1).focused_item_index && focused_sub_closed(menu_at_depth(
                            final(self).top_menu, d - 1)) && (forall|k: int| 0 <= k <= d - 1
                            ==> #[trigger] menu_at_depth(final(self).top_menu, k).window
                            == menu_at_depth(old(self).top_menu, k).window) && (forall|
                            k: int| 0 <= k < d - 1 ==> #[trigger] menu_at_depth(
                            final(self).top_menu, k).focused_item_index == menu_at_depth(
                            old(self).top_menu, k).focused_item_index)
                    },
                    MenuKey::Right => !r.exit && r.want_open && *final(self) == *old(self),
                    MenuKey::Escape => {
                        &&& r.exit == (d == 0) && !r.want_open
                        &&& final(self).current_depth == (if d > 0 {
                            d - 1
                        } else {
                            0
                        })
                        &&& d == 0 ==> *final(self) == *old(self)
                        &&& d > 0 ==> menu_at_depth(final(self).top_menu,
                            d - 1).focused_item_index == menu_at_depth(old(self).top_menu,
                            d - 1).focused_item_index && focused_sub_closed(menu_at_depth(
                            final(self).top_menu, d - 1)) && (forall|k: int| 0 <= k <= d - 1
                            ==> #[trigger] menu_at_depth(final(self).top_menu, k).window
                            == menu_at_depth(old(self).top_menu, k).window) && (forall|
                            k: int| 0 <= k < d - 1 ==> #[trigger] menu_at_depth(
                            final(self).top_menu, k).focused_item_index == menu_at_depth(
                            old(self).top_menu, k).focused_item_index)
                    },
                    MenuKey::Dismiss => r.exit && *final(self) == *old(self),
                    MenuKey::Other => !r.exit && !r.want_open && *final(self) == *old(self),
                }
            }),
    {
        match key {
            MenuKey::Up => {
                apply_at_depth(&mut self.top_menu, self.current_depth,
                    CurrentMenuOp::SelectPrevious);
                track_step_none()
            },
            MenuKey::Down => {
                apply_at_depth(&mut self.top_menu, self.current_depth,
                    CurrentMenuOp::SelectNext);
                track_step_none()
            },
            MenuKey::Home => {
                apply_at_depth(&mut self.top_menu, self.current_depth,
                    CurrentMenuOp::SelectFirst);
                track_step_none()
            },
            MenuKey::End => {
                apply_at_depth(&mut self.top_menu, self.current_depth,
                    CurrentMenuOp::SelectLast);
                track_step_none()
            },
            MenuKey::Left => {
                if self.current_depth > 0 {
                    let parent = self.current_depth - 1;
                    proof {
                        lemma_chain_open_mono(self.top_menu, self.current_depth as int,
                            parent as int);
                    }
                    apply_at_depth(&mut self.top_menu, parent,
                        CurrentMenuOp::HideSubPopups);
                    self.current_depth = parent;
                }
                track_step_none()
            },
            MenuKey::Right => TrackStep { exit: false, command: None, want_open: true },
            MenuKey::Escape => {
                if self.current_depth > 0 {
                    let parent = self.current_depth - 1;
                    proof {
                        lemma_chain_open_mono(self.top_menu, self.current_depth as int,
                            parent as int);
                    }
                    apply_at_depth(&mut self.top_menu, parent,
                        CurrentMenuOp::HideSubPopups);
                    self.current_depth = parent;
                    track_step_none()
                } else {
                    TrackStep { exit: true, command: None, want_open: false }
                }
            },
            MenuKey::Dismiss => TrackStep { exit: true, command: None, want_open: false },
            MenuKey::Other => track_step_none(),
        }
    }

    /// Measures having arrived from the host, opens the current menu's
    /// focused submenu and starts tracking it. Opening nothing (no focused
    /// closed submenu) leaves the session as it was.
    pub fn open_current_sub(&mut self, work_area: Rect, metrics: &Vec<ItemMetric>)
        -> (r: Option<Rect>)
        requires
            tracker_wf(*old(self)),
            old(self).current_depth < 0xFFF,
            forall|j: int| 0 <= j < metrics@.len() ==> metric_wf(#[trigger] metrics@[j]),
            COORD_MIN / 2 <= work_area.left <= COORD_MAX / 2,
            COORD_MIN / 2 <= work_area.top <= COORD_MAX / 2,
            COORD_MIN / 2 <= work_area.right <= COORD_MAX / 2,
            COORD_MIN / 2 <= work_area.bottom <= COORD_MAX / 2,
            work_area.left <= work_area.right,
            work_area.top <= work_area.bottom,
            ({
                let cur = menu_at_depth(old(self).top_menu, old(self).current_depth as int);
                match cur.focused_item_index {
                    Some(i) => i < cur.items@.len() && (match cur.items@[i as int] {
                        MenuItem::SubMenu { sub_menu, .. } => metrics@.len()
                            == sub_menu.items@.len(),
                        _ => true,
                    }),
                    None => true,
                }
            }),
        ensures
            tracker_wf(*final(self)),
            final(self).point == old(self).point,
            r is Some ==> final(self).current_depth == old(self).current_depth + 1
                && menu_at_depth(final(self).top_menu,
                final(self).current_depth as int).window == Some(r->Some_0)
                && menu_at_depth(final(self).top_menu,
                final(self).current_depth as int).focused_item_index is None,
            r is None ==> final(self).current_depth == old(self).current_depth,
            ({
                let cur = menu_at_depth(old(self).top_menu, old(self).current_depth as int);
                &&& (r is Some <==> spec_focused_closed_submenu(cur) && cur.window is Some)
                &&& r is Some ==> r->Some_0 == spec_sub_popup_rect(cur, metrics@, work_area)
            }),
            forall|k: int| 0 <= k <= old(self).current_depth ==> #[trigger] menu_at_depth(
                final(self).top_menu, k).window == menu_at_depth(old(self).top_menu,
                k).window,
            forall|k: int| 0 <= k <= old(self).current_depth ==> #[trigger] menu_at_depth(
                final(self).top_menu, k).focused_item_index == menu_at_depth(
                old(self).top_menu, k).focused_item_index,
    {
        let r = show_sub_popup_at_depth(&mut self.top_menu, self.current_depth, work_area,
            metrics);
        if r.is_some() {
            self.current_depth = self.current_depth + 1;
        }
        r
    }

    /// Handles a button press: outside every open popup the session should
    /// end; on an item the focus switches there (closing any open sibling
    /// submenu first) and a closed submenu under the press asks to be
    /// opened; borders and scroll zones swallow the press.
    pub fn handle_button_down(&mut self, point: Point) -> (r: TrackStep)
        requires
            tracker_wf(*old(self)),
            point.in_range(),
        ensures
            tracker_wf(*final(self)),
            r.command is None,
            final(self).point == point,
            ({
                let t0 = *old(self);
                match spec_menu_from_point(t0.top_menu, point, t0.current_depth as int) {
                    None => r.exit && !r.want_open && final(self).top_menu == t0.top_menu
                        && final(self).current_depth == t0.current_depth,
                    Some(dm) => {
                        let cur0 = menu_at_depth(t0.top_menu, dm);
                        let cur1 = menu_at_depth(final(self).top_menu, dm);
                        match spec_find_item(cur0, point).0 {
                            HitTest::Item(i) => {
                                &&& !r.exit
                                &&& cur1.focused_item_index == Some(i)
                                &&& r.want_open == spec_focused_closed_submenu(cur1)
                                &&& (cur0.focused_item_index == Some(i)
                                    ==> final(self).top_menu == t0.top_menu
                                    && final(self).current_depth == t0.current_depth)
                                &&& (cur0.focused_item_index != Some(i) ==> {
                                    &&& final(self).current_depth == dm
                                    &&& focused_sub_closed(cur1)
                                    &&& (forall|k: int| 0 <= k <= dm ==> #[trigger]
                                        menu_at_depth(final(self).top_menu, k).window
                                        == menu_at_depth(t0.top_menu, k).window)
                                    &&& (forall|k: int| 0 <= k < dm ==> #[trigger]
                                        menu_at_depth(final(self).top_menu,
                                        k).focused_item_index == menu_at_depth(t0.top_menu,
                                        k).focused_item_index)
                                })
                            },
                            HitTest::Nowhere => r.exit && !r.want_open
                                && final(self).top_menu == t0.top_menu
                                && final(self).current_depth == t0.current_depth,
                            _ => !r.exit && !r.want_open
                                && final(self).top_menu == t0.top_menu
                                && final(self).current_depth == t0.current_depth,
                        }
                    },
                }
            }),
    {
        self.point = point;
        let dm = match menu_from_point(&self.top_menu, self.current_depth, point) {
            None => {
                return TrackStep { exit: true, command: None, want_open: false };
            },
            Some(dm) => dm,
        };
        proof {
            lemma_chain_open_mono(self.top_menu, self.current_depth as int, dm as int);
        }
        let (ht, _local) = find_at_depth(&self.top_menu, dm, point);
        match ht {
            HitTest::Item(i) => {
                proof {
                    lemma_hit_item_in_range(menu_at_depth(self.top_menu, dm as int),
                        spec_find_item(menu_at_depth(self.top_menu, dm as int), point).1, 0);
                }
                let focused = focused_at_depth(&self.top_menu, dm);
                let switch = match focused {
                    Some(f) => f != i,
                    None => true,
                };
                if switch {
                    let ghost t0top = self.top_menu;
                    apply_at_depth(&mut self.top_menu, dm, CurrentMenuOp::HideSubPopups);
                    let ghost mid = self.top_menu;
                    apply_at_depth(&mut self.top_menu, dm, CurrentMenuOp::Select(i));
                    proof {
                        assert forall|k: int| 0 <= k <= dm implies #[trigger] menu_at_depth(
                            self.top_menu, k).window == menu_at_depth(t0top, k).window by {
                            assert(menu_at_depth(mid, k).window == menu_at_depth(t0top,
                                k).window);
                            assert(menu_at_depth(self.top_menu, k).window == menu_at_depth(
                                mid, k).window);
                        }
                        assert forall|k: int| 0 <= k < dm implies #[trigger] menu_at_depth(
                            self.top_menu, k).focused_item_index == menu_at_depth(t0top,
                            k).focused_item_index by {
                            assert(menu_at_depth(mid, k).focused_item_index == menu_at_depth(
                                t0top, k).focused_item_index);
                            assert(menu_at_depth(self.top_menu, k).focused_item_index
                                == menu_at_depth(mid, k).focused_item_index);
                        }
                    }
                    self.current_depth = dm;
                }
                let want_open = focused_closed_submenu_at(&self.top_menu, dm);
                TrackStep { exit: false, command: None, want_open }
            },
            HitTest::Nowhere => TrackStep { exit: true, command: None, want_open: false },
            _ => track_step_none(),
        }
    }

    /// Handles a button release: releasing over the item that is focused
    /// executes it when it is an enabled command leaf and ends the
    /// session; a submenu does not execute on release, and anything else
    /// does nothing.
    pub fn handle_button_up(&mut self, point: Point) -> (r: TrackStep)
        requires
            tracker_wf(*old(self)),
            point.in_range(),
        ensures
            tracker_wf(*final(self)),
            *final(self) == (Tracker { point, ..*old(self) }),
            !r.want_open,
            ({
                let t = *old(self);
                match spec_menu_from_point(t.top_menu, point, t.current_depth as int) {
                    Some(dm) => {
                        let cur = menu_at_depth(t.top_menu, dm);
                        match spec_find_item(cur, point).0 {
                            HitTest::Item(i) => if cur.focused_item_index == Some(i) {
                                match spec_execute(cur) {
                                    ExecutionResult::Executed(id) => r.exit && r.command
                                        == Some(id),
                                    _ => !r.exit && r.command is None,
                                }
                            } else {
                                !r.exit && r.command is None
                            },
                            _ => !r.exit && r.command is None,
                        }
                    },
                    None => !r.exit && r.command is None,
                }
            }),
    {
        self.point = point;
        let dm = match menu_from_point(&self.top_menu, self.current_depth, point) {
            None => {
                return track_step_none();
            },
            Some(dm) => dm,
        };
        proof {
            lemma_chain_open_mono(self.top_menu, self.current_depth as int, dm as int);
        }
        let (ht, _local) = find_at_depth(&self.top_menu, dm, point);
        match ht {
            HitTest::Item(i) => {
                let focused = focused_at_depth(&self.top_menu, dm);
                let same = match focused {
                    Some(f) => f == i,
                    None => false,
                };
                if same {
                    match execute_at_depth(&self.top_menu, dm) {
                        ExecutionResult::Executed(id) => TrackStep {
                            exit: true,
                            command: Some(id),
                            want_open: false,
                        },
                        _ => track_step_none(),
                    }
                } else {
                    track_step_none()
                }
            },
            _ => track_step_none(),
        }
    }

    /// Handles pointer movement: moving onto a different item switches the
    /// focus there (closing any open sibling submenu) and asks the host to
    /// open a closed submenu under the pointer — hover-driven disclosure;
    /// moving off the items clears the focus of the menu under the
    /// pointer.
    pub fn handle_mouse_move(&mut self, point: Point) -> (r: TrackStep)
        requires
            tracker_wf(*old(self)),
            point.in_range(),
        ensures
            tracker_wf(*final(self)),
            !r.exit,
            r.command is None,
            final(self).point == point,
            ({
                let t0 = *old(self);
                match spec_menu_from_point(t0.top_menu, point, t0.current_depth as int) {
                    None => !r.want_open && final(self).top_menu == t0.top_menu
                        && final(self).current_depth == t0.current_depth,
                    Some(dm) => {
                        let cur0 = menu_at_depth(t0.top_menu, dm);
                        let cur1 = menu_at_depth(final(self).top_menu, dm);
                        match spec_find_item(cur0, point).0 {
                            HitTest::Item(i) => {
                                &&& cur1.focused_item_index == Some(i)
                                &&& (cur0.focused_item_index == Some(i)
                                    ==> final(self).top_menu == t0.top_menu
                                    && final(self).current_depth == t0.current_depth
                                    && !r.want_open)
                                &&& (cur0.focused_item_index != Some(i) ==> {
                                    &&& final(self).current_depth == dm
                                    &&& focused_sub_closed(cur1)
                                    &&& r.want_open == spec_focused_closed_submenu(cur1)
                                    &&& (forall|k: int| 0 <= k <= dm ==> #[trigger]
                                        menu_at_depth(final(self).top_menu, k).window
                                        == menu_at_depth(t0.top_menu, k).window)
                                    &&& (forall|k: int| 0 <= k < dm ==> #[trigger]
                                        menu_at_depth(final(self).top_menu,
                                        k).focused_item_index == menu_at_depth(t0.top_menu,
                                        k).focused_item_index)
                                })
                            },
                            _ => {
                                &&& !r.want_open
                                &&& cur1.focused_item_index is None
                                &&& final(self).current_depth == dm
                                &&& (forall|k: int| 0 <= k <= dm ==> #[trigger]
                                    menu_at_depth(final(self).top_menu, k).window
                                    == menu_at_depth(t0.top_menu, k).window)
                                &&& (forall|k: int| 0 <= k < dm ==> #[trigger] menu_at_depth(
                                    final(self).top_menu, k).focused_item_index
                                    == menu_at_depth(t0.top_menu, k).focused_item_index)
                            },
                        }
                    },
                }
            }),
    {
        self.point = point;
        let dm = match menu_from_point(&self.top_menu, self.current_depth, point) {
            None => {
                return track_step_none();
            },
            Some(dm) => dm,
        };
        proof {
            lemma_chain_open_mono(self.top_menu, self.current_depth as int, dm as int);
        }
        let (ht, _local) = find_at_depth(&self.top_menu, dm, point);
        match ht {
            HitTest::Item(i) => {
                proof {
                    lemma_hit_item_in_range(menu_at_depth(self.top_menu, dm as int),
                        spec_find_item(menu_at_depth(self.top_menu, dm as int), point).1, 0);
                }
                let focused = focused_at_depth(&self.top_menu, dm);
                let switch = match focused {
                    Some(f) => f != i,
                    None => true,
                };
                if switch {
                    let ghost t0top = self.top_menu;
                    apply_at_depth(&mut self.top_menu, dm, CurrentMenuOp::HideSubPopups);
                    let ghost mid = self.top_menu;
                    apply_at_depth(&mut self.top_menu, dm, CurrentMenuOp::Select(i));
                    proof {
                        assert forall|k: int| 0 <= k <= dm implies #[trigger] menu_at_depth(
                            self.top_menu, k).window == menu_at_depth(t0top, k).window by {
                            assert(menu_at_depth(mid, k).window == menu_at_depth(t0top,
                                k).window);
                            assert(menu_at_depth(self.top_menu, k).window == menu_at_depth(
                                mid, k).window);
                        }
                        assert forall|k: int| 0 <= k < dm implies #[trigger] menu_at_depth(
                            self.top_menu, k).focused_item_index == menu_at_depth(t0top,
                            k).focused_item_index by {
                            assert(menu_at_depth(mid, k).focused_item_index == menu_at_depth(
                                t0top, k).focused_item_index);
                            assert(menu_at_depth(self.top_menu, k).focused_item_index
                                == menu_at_depth(mid, k).focused_item_index);
                        }
                    }
                    self.current_depth = dm;
                    let want_open = focused_closed_submenu_at(&self.top_menu, dm);
                    TrackStep { exit: false, command: None, want_open }
                } else {
                    track_step_none()
                }
            },
            _ => {
                let ghost t0top = self.top_menu;
                apply_at_depth(&mut self.top_menu, dm, CurrentMenuOp::HideSubPopups);
                let ghost mid = self.top_menu;
                apply_at_depth(&mut self.top_menu, dm, CurrentMenuOp::ClearFocus);
                proof {
                    assert forall|k: int| 0 <= k <= dm implies #[trigger] menu_at_depth(
                        self.top_menu, k).window == menu_at_depth(t0top, k).window by {
                        assert(menu_at_depth(mid, k).window == menu_at_depth(t0top,
                            k).window);
                        assert(menu_at_depth(self.top_menu, k).window == menu_at_depth(mid,
                            k).window);
                    }
                    assert forall|k: int| 0 <= k < dm implies #[trigger] menu_at_depth(
                        self.top_menu, k).focused_item_index == menu_at_depth(t0top,
                        k).focused_item_index by {
                        assert(menu_at_depth(mid, k).focused_item_index == menu_at_depth(
                            t0top, k).focused_item_index);
                        assert(menu_at_depth(self.top_menu, k).focused_item_index
                            == menu_at_depth(mid, k).focused_item_index);
                    }
                }
                self.current_depth = dm;
                track_step_none()
            },
        }
    }
}

} // verus!
