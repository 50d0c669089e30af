//! Interactive-display state: which columns are shown in which order, the
//! visualization and colour modes, and the column-selector popup.  All of
//! it is plain state manipulation; drawing and key decoding happen
//! outside the library.

use vstd::prelude::*;
use vstd::string::StringExecFns;

use crate::args::{all_columns, Column, SparklineScale};

verus! {

/// How rich the terminal's colour support is taken to be.
#[derive(Debug, Clone, Copy, PartialEq, Eq, Structural)]
pub enum ColorSupport {
    NoColor,
    Basic,
    Extended,
    TrueColor,
}

/// How per-hop history is drawn: bars of varying height, or full blocks
/// coloured by value.
#[derive(Debug, Clone, Copy, PartialEq, Eq, Structural)]
pub enum VisualizationMode {
    Sparkline,
    Heatmap,
}

/// Whether `c` occurs in `v`.
fn contains_column(v: &Vec<Column>, c: Column) -> (r: bool)
    ensures
        r == v@.contains(c),
{
    let n = v.len();
    let mut j: usize = 0;
    while j < n
        invariant
            0 <= j <= n,
            n == v@.len(),
            forall|i: int| 0 <= i < j ==> v@[i] != c,
        decreases n - j,
    {
        if v[j] == c {
            proof {
                assert(v@[j as int] == c);
            }
            return true;
        }
        j = j + 1;
    }
    proof {
        assert(forall|i: int| 0 <= i < v@.len() ==> v@[i] != c);
    }
    false
}

/// State of the column-selector popup: every available column with its
/// enabled flag, in display order, and the cursor position.
#[derive(Debug, Clone)]
pub struct ColumnSelectorState {
    pub selected_index: usize,
    pub available_columns: Vec<(Column, bool)>,
}

impl ColumnSelectorState {
    /// Open the selector over the full column list, ticking the columns
    /// currently enabled.
    pub fn new(enabled_columns: &Vec<Column>) -> (r: ColumnSelectorState)
        ensures
            r.selected_index == 0,
            r.available_columns@.len() == all_columns().len(),
            forall|i: int|
                0 <= i < r.available_columns@.len() ==> (#[trigger] r.available_columns@[i]).0
                    == all_columns()[i] && r.available_columns@[i].1 == enabled_columns@.contains(
                    all_columns()[i],
                ),
    {
        let all = Column::all();
        let n = all.len();
        let mut available: Vec<(Column, bool)> = Vec::new();
        let mut i: usize = 0;
        while i < n
            invariant
                0 <= i <= n,
                n == all@.len(),
                all@ == all_columns(),
                available@.len() == i,
                forall|j: int|
                    0 <= j < i ==> (#[trigger] available@[j]).0 == all_columns()[j]
                        && available@[j].1 == enabled_columns@.contains(all_columns()[j]),
            decreases n - i,
        {
            let col = all[i];
            let enabled = contains_column(enabled_columns, col);
            available.push((col, enabled));
            i = i + 1;
        }
        ColumnSelectorState { selected_index: 0, available_columns: available }
    }

    /// Move the cursor up one row, stopping at the top.
    pub fn move_up(&mut self)
        ensures
            final(self).available_columns == old(self).available_columns,
            final(self).selected_index == if old(self).selected_index > 0 {
                old(self).selected_index - 1
            } else {
                0int
            },
    {
        if self.selected_index > 0 {
            self.selected_index = self.selected_index - 1;
        }
    }

    /// Move the cursor down one row, stopping at the bottom.
    pub fn move_down(&mut self)
        ensures
            final(self).available_columns == old(self).available_columns,
            final(self).selected_index == if old(self).selected_index + 1 < old(
                self,
            ).available_columns@.len() {
                old(self).selected_index + 1
            } else {
                old(self).selected_index as int
            },
    {
        let n = self.available_columns.len();
        if n > 0 && self.selected_index < n - 1 {
            self.selected_index = self.selected_index + 1;
        }
    }

    /// Flip the enabled flag of the column under the cursor.
    pub fn toggle_selected(&mut self)
        ensures
            final(self).selected_index == old(self).selected_index,
            if old(self).selected_index < old(self).available_columns@.len() {
                final(self).available_columns@ == old(self).available_columns@.update(
                    old(self).selected_index as int,
                    (
                        old(self).available_columns@[old(self).selected_index as int].0,
                        !old(self).available_columns@[old(self).selected_index as int].1,
                    ),
                )
            } else {
                final(self).available_columns == old(self).available_columns
            },
    {
        let i = self.selected_index;
        if i < self.available_columns.len() {
            let entry = self.available_columns[i];
            self.available_columns.set(i, (entry.0, !entry.1));
        }
    }

    /// Move the column under the cursor one row up, swapping with its
    /// neighbour; the cursor follows it.
    pub fn move_selected_up(&mut self)
        ensures
            if 0 < old(self).selected_index < old(self).available_columns@.len() {
                let i = old(self).selected_index as int;
                &&& final(self).available_columns@ == old(self).available_columns@.update(
                    i - 1,
                    old(self).available_columns@[i],
                ).update(i, old(self).available_columns@[i - 1])
                &&& final(self).selected_index == i - 1
            } else {
                *final(self) == *old(self)
            },
    {
        let i = self.selected_index;
        if i > 0 && i < self.available_columns.len() {
            let a = self.available_columns[i - 1];
            let b = self.available_columns[i];
            self.available_columns.set(i - 1, b);
            self.available_columns.set(i, a);
            self.selected_index = i - 1;
        }
    }

    /// Move the column under the cursor one row down, swapping with its
    /// neighbour; the cursor follows it.
    pub fn move_selected_down(&mut self)
        ensures
            if old(self).selected_index + 1 < old(self).available_columns@.len() {
                let i = old(self).selected_index as int;
                &&& final(self).available_columns@ == old(self).available_columns@.update(
                    i,
                    old(self).available_columns@[i + 1],
                ).update(i + 1, old(self).available_columns@[i])
                &&& final(self).selected_index == i + 1
            } else {
                *final(self) == *old(self)
            },
    {
        let i = self.selected_index;
        let n = self.available_columns.len();
        if n > 0 && i < n - 1 {
            let a = self.available_columns[i];
            let b = self.available_columns[i + 1];
            self.available_columns.set(i, b);
            self.available_columns.set(i + 1, a);
            self.selected_index = i + 1;
        }
    }

    /// The columns currently ticked, in display order.
    pub fn get_enabled_columns(&self) -> (r: Vec<Column>)
        ensures
            r@ == enabled_of(self.available_columns@),
    {
        let n = self.available_columns.len();
        let mut out: Vec<Column> = Vec::new();
        let mut j: usize = 0;
        proof {
            assert(self.available_columns@.take(0) =~= Seq::<(Column, bool)>::empty());
        }
        while j < n
            invariant
                0 <= j <= n,
                n == self.available_columns@.len(),
                out@ == enabled_of(self.available_columns@.take(j as int)),
            decreases n - j,
        {
            let entry = self.available_columns[j];
            proof {
                assert(self.available_columns@.take(j as int + 1).drop_last()
                    =~= self.available_columns@.take(j as int));
                assert(self.available_columns@.take(j as int + 1).last()
                    == self.available_columns@[j as int]);
            }
            if entry.1 {
                out.push(entry.0);
            }
            j = j + 1;
        }
        proof {
            assert(self.available_columns@.take(n as int) =~= self.available_columns@);
        }
        out
    }
}

/// The enabled columns of a selector list, in order.
pub open spec fn enabled_of(s: Seq<(Column, bool)>) -> Seq<Column>
    decreases s.len(),
{
    if s.len() == 0 {
        Seq::empty()
    } else {
        let rest = enabled_of(s.drop_last());
        if s.last().1 {
            rest.push(s.last().0)
        } else {
            rest
        }
    }
}

/// The first column of `all` that neither occurs in `cols` nor equals
/// `removed`, scanning in order.
pub open spec fn first_replacement(
    all: Seq<Column>,
    cols: Seq<Column>,
    removed: Column,
) -> Option<Column>
    decreases all.len(),
{
    if all.len() == 0 {
        None
    } else if !cols.contains(all[0]) && all[0] != removed {
        Some(all[0])
    } else {
        first_replacement(all.drop_first(), cols, removed)
    }
}

/// All display state of the interactive view.
#[derive(Debug, Clone)]
pub struct UiState {
    pub current_sparkline_scale: SparklineScale,
    pub color_support: ColorSupport,
    pub columns: Vec<Column>,
    pub current_column_index: usize,
    pub show_help: bool,
    pub visualization_mode: VisualizationMode,
    pub show_hostnames: bool,
    pub show_column_selector: bool,
    pub column_selector_state: ColumnSelectorState,
}

impl UiState {
    /// Fresh display state: the given scale and columns, basic colour
    /// support until the terminal is probed, sparkline mode, hostnames
    /// shown, no popups.
    pub fn new(scale: SparklineScale, columns: Vec<Column>) -> (r: UiState)
        ensures
            r.current_sparkline_scale == scale,
            r.color_support == ColorSupport::Basic,
            r.columns == columns,
            r.current_column_index == 0,
            !r.show_help,
            r.visualization_mode == VisualizationMode::Sparkline,
            r.show_hostnames,
            !r.show_column_selector,
    {
        let column_selector_state = ColumnSelectorState::new(&columns);
        UiState {
            current_sparkline_scale: scale,
            color_support: ColorSupport::Basic,
            columns,
            current_column_index: 0,
            show_help: false,
            visualization_mode: VisualizationMode::Sparkline,
            show_hostnames: true,
            show_column_selector: false,
            column_selector_state,
        }
    }

    /// Show or hide the help overlay.
    pub fn toggle_help(&mut self)
        ensures
            *final(self) == (UiState { show_help: !old(self).show_help, ..*old(self) }),
    {
        self.show_help = !self.show_help;
    }

    /// Open the column selector (resetting it over the current columns)
    /// or close it; changes were already applied while it was open.
    pub fn toggle_column_selector(&mut self)
        ensures
            final(self).show_column_selector == !old(self).show_column_selector,
            final(self).columns == old(self).columns,
            final(self).current_sparkline_scale == old(self).current_sparkline_scale,
            final(self).color_support == old(self).color_support,
            final(self).current_column_index == old(self).current_column_index,
            final(self).show_help == old(self).show_help,
            final(self).visualization_mode == old(self).visualization_mode,
            final(self).show_hostnames == old(self).show_hostnames,
            old(self).show_column_selector ==> final(self).column_selector_state == old(
                self,
            ).column_selector_state,
            // opening resets the selector over the currently shown columns
            !old(self).show_column_selector ==> {
                let st = final(self).column_selector_state;
                &&& st.selected_index == 0
                &&& st.available_columns@.len() == all_columns().len()
                &&& forall|i: int|
                    0 <= i < st.available_columns@.len() ==> (
                    #[trigger] st.available_columns@[i]).0 == all_columns()[i]
                        && st.available_columns@[i].1 == old(self).columns@.contains(
                        all_columns()[i],
                    )
            },
    {
        if !self.show_column_selector {
            self.column_selector_state = ColumnSelectorState::new(&self.columns);
        }
        self.show_column_selector = !self.show_column_selector;
    }

    /// Apply the selector's current selection to the displayed columns,
    /// falling back to the hostname column when everything was unticked.
    fn apply_column_changes_immediate(&mut self)
        ensures
            final(self).columns@ == if enabled_of(
                old(self).column_selector_state.available_columns@,
            ).len() == 0 {
                seq![Column::Host]
            } else {
                enabled_of(old(self).column_selector_state.available_columns@)
            },
            final(self).columns@.len() > 0,
            final(self).current_sparkline_scale == old(self).current_sparkline_scale,
            final(self).color_support == old(self).color_support,
            final(self).current_column_index == old(self).current_column_index,
            final(self).show_help == old(self).show_help,
            final(self).visualization_mode == old(self).visualization_mode,
            final(self).show_hostnames == old(self).show_hostnames,
            final(self).show_column_selector == old(self).show_column_selector,
    {
        self.columns = self.column_selector_state.get_enabled_columns();
        if self.columns.len() == 0 {
            self.columns.push(Column::Host);
            proof {
                assert(self.columns@ =~= seq![Column::Host]);
            }
            let n = self.column_selector_state.available_columns.len();
            let mut j: usize = 0;
            while j < n
                invariant
                    0 <= j <= n,
                    n == self.column_selector_state.available_columns@.len(),
                    self.columns@ == seq![Column::Host],
                    enabled_of(old(self).column_selector_state.available_columns@).len() == 0,
                    self.current_sparkline_scale == old(self).current_sparkline_scale,
                    self.color_support == old(self).color_support,
                    self.current_column_index == old(self).current_column_index,
                    self.show_help == old(self).show_help,
                    self.visualization_mode == old(self).visualization_mode,
                    self.show_hostnames == old(self).show_hostnames,
                    self.show_column_selector == old(self).show_column_selector,
                decreases n - j,
            {
                let entry = self.column_selector_state.available_columns[j];
                if matches!(entry.0, Column::Host) {
                    self.column_selector_state.available_columns.set(j, (entry.0, true));
                    return ;
                }
                j = j + 1;
            }
        }
    }

    /// Flip the column under the selector cursor and apply the change at
    /// once.
    pub fn toggle_selected_column_immediate(&mut self)
        ensures
            final(self).show_column_selector == old(self).show_column_selector,
            final(self).show_help == old(self).show_help,
            final(self).current_sparkline_scale == old(self).current_sparkline_scale,
            final(self).color_support == old(self).color_support,
            final(self).current_column_index == old(self).current_column_index,
            final(self).visualization_mode == old(self).visualization_mode,
            final(self).show_hostnames == old(self).show_hostnames,
            final(self).columns@.len() > 0,
    {
        self.column_selector_state.toggle_selected();
        self.apply_column_changes_immediate();
    }

    /// Move the column under the selector cursor up and apply the change
    /// at once.
    pub fn move_selected_column_up_immediate(&mut self)
        ensures
            final(self).show_column_selector == old(self).show_column_selector,
            final(self).show_help == old(self).show_help,
            final(self).current_sparkline_scale == old(self).current_sparkline_scale,
            final(self).color_support == old(self).color_support,
            final(self).current_column_index == old(self).current_column_index,
            final(self).visualization_mode == old(self).visualization_mode,
            final(self).show_hostnames == old(self).show_hostnames,
            final(self).columns@.len() > 0,
    {
        self.column_selector_state.move_selected_up();
        self.apply_column_changes_immediate();
    }

    /// Move the column under the selector cursor down and apply the
    /// change at once.
    pub fn move_selected_column_down_immediate(&mut self)
        ensures
            final(self).show_column_selector == old(self).show_column_selector,
            final(self).show_help == old(self).show_help,
            final(self).current_sparkline_scale == old(self).current_sparkline_scale,
            final(self).color_support == old(self).color_support,
            final(self).current_column_index == old(self).current_column_index,
            final(self).visualization_mode == old(self).visualization_mode,
            final(self).show_hostnames == old(self).show_hostnames,
            final(self).columns@.len() > 0,
    {
        self.column_selector_state.move_selected_down();
        self.apply_column_changes_immediate();
    }

    /// Switch between sparkline and heatmap rendering.
    pub fn toggle_visualization_mode(&mut self)
        ensures
            *final(self) == (UiState {
                visualization_mode: match old(self).visualization_mode {
                    VisualizationMode::Sparkline => VisualizationMode::Heatmap,
                    VisualizationMode::Heatmap => VisualizationMode::Sparkline,
                },
                ..*old(self)
            }),
    {
        self.visualization_mode = match self.visualization_mode {
            VisualizationMode::Sparkline => VisualizationMode::Heatmap,
            VisualizationMode::Heatmap => VisualizationMode::Sparkline,
        };
    }

    /// Switch between hostname and numeric-address display.
    pub fn toggle_hostnames(&mut self)
        ensures
            *final(self) == (UiState { show_hostnames: !old(self).show_hostnames, ..*old(self) }),
    {
        self.show_hostnames = !self.show_hostnames;
    }

    /// Switch the sparkline between linear and logarithmic scaling.
    pub fn toggle_sparkline_scale(&mut self)
        ensures
            *final(self) == (UiState {
                current_sparkline_scale: match old(self).current_sparkline_scale {
                    SparklineScale::Linear => SparklineScale::Logarithmic,
                    SparklineScale::Logarithmic => SparklineScale::Linear,
                },
                ..*old(self)
            }),
    {
        self.current_sparkline_scale = match self.current_sparkline_scale {
            SparklineScale::Linear => SparklineScale::Logarithmic,
            SparklineScale::Logarithmic => SparklineScale::Linear,
        };
    }

    /// Step through the colour-support modes in a fixed cycle.
    pub fn cycle_color_mode(&mut self)
        ensures
            *final(self) == (UiState {
                color_support: match old(self).color_support {
                    ColorSupport::NoColor => ColorSupport::Basic,
                    ColorSupport::Basic => ColorSupport::Extended,
                    ColorSupport::Extended => ColorSupport::TrueColor,
                    ColorSupport::TrueColor => ColorSupport::NoColor,
                },
                ..*old(self)
            }),
    {
        self.color_support = match self.color_support {
            ColorSupport::NoColor => ColorSupport::Basic,
            ColorSupport::Basic => ColorSupport::Extended,
            ColorSupport::Extended => ColorSupport::TrueColor,
            ColorSupport::TrueColor => ColorSupport::NoColor,
        };
    }

    /// Replace the column after the cursor with the first column not on
    /// display: a quick way to step through the available fields.
    pub fn toggle_column(&mut self)
        ensures
            old(self).columns@.len() == 0 ==> *final(self) == *old(self),
            old(self).columns@.len() > 0 ==> {
                let idx = ((old(self).current_column_index as int % old(
                    self,
                ).columns@.len() as int) + 1) % old(self).columns@.len() as int;
                let removed = old(self).columns@[idx];
                let rest = old(self).columns@.remove(idx);
                match first_replacement(all_columns(), rest, removed) {
                    Some(c) => final(self).columns@ == rest.insert(idx, c),
                    None => final(self).columns@ == rest,
                }
            },
            old(self).columns@.len() > 0 ==> ((final(self).current_column_index
                < final(self).columns@.len()) || final(self).current_column_index == 0),
    {
        if self.columns.len() == 0 {
            return ;
        }
        let len = self.columns.len();
        let idx = (self.current_column_index % len + 1) % len;
        self.current_column_index = idx;
        let removed = self.columns.remove(idx);
        let ghost rest = self.columns@;

        let all = Column::all();
        let n = all.len();
        let mut j: usize = 0;
        let mut inserted: bool = false;
        proof {
            assert(all@.skip(0) =~= all@);
        }
        while j < n
            invariant
                0 <= j <= n,
                n == all@.len(),
                all@ == all_columns(),
                !inserted ==> self.columns@ == rest,
                !inserted ==> first_replacement(all@.skip(j as int), rest, removed)
                    == first_replacement(all_columns(), rest, removed),
                inserted ==> (match first_replacement(all_columns(), rest, removed) {
                    Some(c) => self.columns@ == rest.insert(idx as int, c),
                    None => false,
                }),
                inserted ==> self.columns@.len() == rest.len() + 1,
                idx <= rest.len(),
                self.current_column_index == idx,
                rest == old(self).columns@.remove(idx as int),
                removed == old(self).columns@[idx as int],
                idx as int == ((old(self).current_column_index as int % old(
                    self,
                ).columns@.len() as int) + 1) % old(self).columns@.len() as int,
                self.current_sparkline_scale == old(self).current_sparkline_scale,
                self.color_support == old(self).color_support,
                self.show_help == old(self).show_help,
                self.visualization_mode == old(self).visualization_mode,
                self.show_hostnames == old(self).show_hostnames,
                self.show_column_selector == old(self).show_column_selector,
            decreases n - j,
        {
            if !inserted {
                let col = all[j];
                proof {
                    assert(all@.skip(j as int)[0] == all@[j as int]);
                    assert(all@.skip(j as int).drop_first() =~= all@.skip(j as int + 1));
                }
                if !contains_column(&self.columns, col) && col != removed {
                    self.columns.insert(idx, col);
                    inserted = true;
                }
            }
            j = j + 1;
        }
        proof {
            if !inserted {
                assert(all@.skip(n as int) =~= Seq::<Column>::empty());
            }
        }
        if self.current_column_index >= self.columns.len() {
            self.current_column_index = 0;
        }
    }

    /// Add a column to the display unless it is already shown.
    pub fn add_column(&mut self, column: Column)
        ensures
            final(self).columns@ == if old(self).columns@.contains(column) {
                old(self).columns@
            } else {
                old(self).columns@.push(column)
            },
            final(self).current_column_index == old(self).current_column_index,
    {
        if !contains_column(&self.columns, column) {
            self.columns.push(column);
        }
    }

    /// Remove a column from the display, pulling the cursor back into
    /// range if it fell off the end.
    pub fn remove_column(&mut self, column: Column)
        ensures
            old(self).columns@.contains(column) ==> exists|p: int|
                0 <= p < old(self).columns@.len() && old(self).columns@[p] == column && (forall|
                    q: int,
                |
                    0 <= q < p ==> old(self).columns@[q] != column) && final(self).columns@ == old(
                    self,
                ).columns@.remove(p),
            old(self).columns@.contains(column) ==> final(self).current_column_index == {
                let new_len = old(self).columns@.len() - 1;
                if old(self).current_column_index >= new_len && old(self).current_column_index
                    > 0 {
                    if new_len > 0 {
                        new_len - 1
                    } else {
                        0int
                    }
                } else {
                    old(self).current_column_index as int
                }
            },
            old(self).columns@.contains(column) && final(self).columns@.len() > 0
                ==> final(self).current_column_index < final(self).columns@.len(),
            !old(self).columns@.contains(column) ==> *final(self) == *old(self),
    {
        let n = self.columns.len();
        let mut j: usize = 0;
        while j < n
            invariant
                0 <= j <= n,
                n == self.columns@.len(),
                forall|i: int| 0 <= i < j ==> self.columns@[i] != column,
                *self == *old(self),
            decreases n - j,
        {
            if self.columns[j] == column {
                proof {
                    assert(self.columns@[j as int] == column);
                    assert(self.columns@.contains(column));
                }
                self.columns.remove(j);
                proof {
                    assert(0 <= j < old(self).columns@.len() && old(self).columns@[j as int]
                        == column && self.columns@ == old(self).columns@.remove(j as int));
                }
                if self.current_column_index >= self.columns.len()
                    && self.current_column_index > 0 {
                    self.current_column_index = if self.columns.len() > 0 {
                        self.columns.len() - 1
                    } else {
                        0
                    };
                }
                return ;
            }
            j = j + 1;
        }
        proof {
            assert(!self.columns@.contains(column));
        }
    }
}

/// The text of one column's header cell in the interactive table, padded
/// to the column's display width.
pub open spec fn ui_header_cell(c: Column) -> Seq<char> {
    match c {
        Column::Hop => Seq::empty(),
        Column::Host => crate::utils::pad_right_spec(Column::header_spec(c), 21),
        Column::Loss => crate::utils::pad_left_spec(Column::header_spec(c), 7),
        Column::Sent => crate::utils::pad_left_spec(Column::header_spec(c), 4),
        Column::Graph => Column::header_spec(c),
        _ => crate::utils::pad_left_spec(Column::header_spec(c), 9),
    }
}

/// The header cells of the chosen columns joined by single spaces.
pub open spec fn ui_header_cells(cols: Seq<Column>) -> Seq<char>
    decreases cols.len(),
{
    if cols.len() == 0 {
        Seq::empty()
    } else if cols.len() == 1 {
        ui_header_cell(cols[0])
    } else {
        ui_header_cells(cols.drop_last()) + seq![' '] + ui_header_cell(cols.last())
    }
}

/// The exec text of one interactive header cell.
fn ui_header_cell_str(c: Column) -> (r: String)
    ensures
        r@ == ui_header_cell(c),
{
    match c {
        Column::Hop => String::new(),
        Column::Host => crate::utils::pad_right_str(c.header(), 21),
        Column::Loss => crate::utils::pad_left_str(c.header(), 7),
        Column::Sent => crate::utils::pad_left_str(c.header(), 4),
        Column::Graph => {
            let h = c.header();
            h.to_owned()
        },
        _ => crate::utils::pad_left_str(c.header(), 9),
    }
}

impl UiState {
    /// The header line for the current column configuration: two leading
    /// spaces, then each column's padded header joined by single spaces.
    pub fn get_header(&self) -> (r: String)
        ensures
            r@ == "  "@ + ui_header_cells(self.columns@),
    {
        let mut header = String::from_str("  ");
        let n = self.columns.len();
        let mut i: usize = 0;
        proof {
            assert(self.columns@.take(0) =~= Seq::<Column>::empty());
            assert(header@ =~= "  "@ + ui_header_cells(self.columns@.take(0)));
        }
        while i < n
            invariant
                0 <= i <= n,
                n == self.columns@.len(),
                header@ == "  "@ + ui_header_cells(self.columns@.take(i as int)),
            decreases n - i,
        {
            if i > 0 {
                header.append(" ");
                proof {
                    reveal_strlit(" ");
                }
            }
            header.append(ui_header_cell_str(self.columns[i]).as_str());
            proof {
                assert(self.columns@.take(i + 1).drop_last() =~= self.columns@.take(i as int));
                assert(self.columns@.take(i + 1).last() == self.columns@[i as int]);
                assert(header@ =~= "  "@ + ui_header_cells(self.columns@.take(i + 1)));
            }
            i = i + 1;
        }
        proof {
            assert(self.columns@.take(n as int) =~= self.columns@);
        }
        header
    }
}

/// Processes keyboard input for the interactive view.  The decoding of
/// terminal events happens outside the library; the state changes they
/// trigger are the `UiState` methods above.
pub struct EventHandler {
}

impl EventHandler {
    /// A new event handler.
    pub fn new() -> (r: EventHandler) {
        EventHandler {  }
    }
}

} // verus!
