use mtr_ng::args::Column;
use mtr_ng::report::format_column_headers;
use mtr_ng::sixel::SixelRenderer;
use mtr_ng::ui::{ColorSupport, ColumnSelectorState, EventHandler, UiState, VisualizationMode};
use mtr_ng::SparklineScale;

#[test]
fn test_column_metadata() {
    assert_eq!(Column::all().len(), 12);
    assert_eq!(Column::default_columns().len(), 10);
    assert!(!Column::default_columns().contains(&Column::Jitter));
    assert_eq!(Column::Loss.header(), "Loss%");
    assert_eq!(Column::Graph.header(), "RTT History");
    assert_eq!(Column::Hop.width(), 3);
    assert_eq!(Column::Host.width(), 21);
}

#[test]
fn test_report_header_line() {
    let headers = format_column_headers(&Column::default_columns());
    assert_eq!(headers, "  Loss%  Snt    Last     Avg    EMA   Best   Wrst StDev");

    let all = format_column_headers(&Column::all());
    assert_eq!(all, "  Loss%  Snt    Last     Avg    EMA   Jttr   JAvg   Best   Wrst StDev");
}

#[test]
fn test_column_selector_state() {
    let enabled = vec![Column::Hop, Column::Loss];
    let mut state = ColumnSelectorState::new(&enabled);
    assert_eq!(state.selected_index, 0);
    assert_eq!(state.available_columns.len(), 12);
    assert!(state.available_columns[0].1); // Hop is ticked
    assert!(!state.available_columns[1].1); // Host is not

    state.move_down();
    assert_eq!(state.selected_index, 1);
    state.move_up();
    assert_eq!(state.selected_index, 0);
    state.move_up();
    assert_eq!(state.selected_index, 0);

    state.toggle_selected();
    assert!(!state.available_columns[0].1);
    state.toggle_selected();
    assert!(state.available_columns[0].1);

    assert_eq!(state.get_enabled_columns(), vec![Column::Hop, Column::Loss]);

    state.move_selected_down();
    assert_eq!(state.selected_index, 1);
    assert_eq!(state.available_columns[1].0, Column::Hop);
    state.move_selected_up();
    assert_eq!(state.selected_index, 0);
    assert_eq!(state.available_columns[0].0, Column::Hop);
}

#[test]
fn test_ui_state_toggles() {
    let mut ui = UiState::new(SparklineScale::Logarithmic, Column::default_columns());
    assert!(!ui.show_help);
    ui.toggle_help();
    assert!(ui.show_help);

    assert!(matches!(ui.visualization_mode, VisualizationMode::Sparkline));
    ui.toggle_visualization_mode();
    assert!(matches!(ui.visualization_mode, VisualizationMode::Heatmap));

    assert!(ui.show_hostnames);
    ui.toggle_hostnames();
    assert!(!ui.show_hostnames);

    assert!(matches!(ui.current_sparkline_scale, SparklineScale::Logarithmic));
    ui.toggle_sparkline_scale();
    assert!(matches!(ui.current_sparkline_scale, SparklineScale::Linear));

    assert!(matches!(ui.color_support, ColorSupport::Basic));
    ui.cycle_color_mode();
    assert!(matches!(ui.color_support, ColorSupport::Extended));
    ui.cycle_color_mode();
    assert!(matches!(ui.color_support, ColorSupport::TrueColor));
    ui.cycle_color_mode();
    assert!(matches!(ui.color_support, ColorSupport::NoColor));
}

#[test]
fn test_ui_state_column_management() {
    let mut ui = UiState::new(SparklineScale::Linear, Column::default_columns());

    ui.add_column(Column::Jitter);
    assert!(ui.columns.contains(&Column::Jitter));
    let len = ui.columns.len();
    ui.add_column(Column::Jitter);
    assert_eq!(ui.columns.len(), len);

    ui.remove_column(Column::Jitter);
    assert!(!ui.columns.contains(&Column::Jitter));

    // the quick toggle swaps one shown column for a hidden one
    let before = ui.columns.clone();
    ui.toggle_column();
    assert_eq!(ui.columns.len(), before.len());
    assert!(ui.current_column_index < ui.columns.len());
}

#[test]
fn test_ui_state_column_selector_flow() {
    let mut ui = UiState::new(SparklineScale::Linear, Column::default_columns());
    assert!(!ui.show_column_selector);
    ui.toggle_column_selector();
    assert!(ui.show_column_selector);

    // untick everything: the hostname column is forced back on
    for _ in 0..12 {
        if ui
            .column_selector_state
            .available_columns[ui.column_selector_state.selected_index]
            .1
        {
            ui.toggle_selected_column_immediate();
        }
        ui.column_selector_state.move_down();
    }
    assert_eq!(ui.columns, vec![Column::Host]);

    ui.toggle_column_selector();
    assert!(!ui.show_column_selector);
}

#[test]
fn test_ui_state_selector_reorder() {
    let mut ui = UiState::new(SparklineScale::Linear, Column::default_columns());
    ui.toggle_column_selector();
    ui.move_selected_column_down_immediate();
    assert_eq!(ui.column_selector_state.available_columns[1].0, Column::Hop);
    ui.move_selected_column_up_immediate();
    assert_eq!(ui.column_selector_state.available_columns[0].0, Column::Hop);
}

#[test]
fn test_ui_get_header() {
    let ui = UiState::new(
        SparklineScale::Linear,
        vec![Column::Hop, Column::Host, Column::Loss, Column::Graph],
    );
    assert_eq!(ui.get_header(), "   Hostname                Loss% RTT History");
}

#[test]
fn test_event_handler_new() {
    let _handler = EventHandler::new();
}

#[test]
fn test_sixel_renderer() {
    assert!(SixelRenderer::new(true).enabled);
    assert!(!SixelRenderer::new(false).enabled);
    assert!(!SixelRenderer::detect_sixel_support());
}
