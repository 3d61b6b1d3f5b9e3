use cluster_monitor::display::{
    bar_glyph, core_connector, handle_key, label_padding, record_core_sample, record_core_samples,
    record_ram_sample,
    select_next, select_previous, usage_color, CoreGraph, Key, RAMGraph, GRAPH_WIDTH,
};

const BLANK: &str = "                    ";

#[test]
fn first_core_sample_adds_blank_graph() {
    let mut graphs: Vec<CoreGraph> = Vec::new();
    let shown = record_core_sample(&mut graphs, &"h".to_string(), 0, "⣀");
    assert_eq!(shown, "⣀");
    assert_eq!(graphs.len(), 1);
    assert_eq!(graphs[0].hostname, "h");
    assert_eq!(graphs[0].core_index, 0);
    assert_eq!(graphs[0].graph_data, BLANK);
}

#[test]
fn core_sample_shifts_full_window() {
    let mut graphs: Vec<CoreGraph> = Vec::new();
    record_core_sample(&mut graphs, &"h".to_string(), 0, "⣀");
    let shown = record_core_sample(&mut graphs, &"h".to_string(), 0, "⣿");
    let expected = format!("{}⣿", &BLANK[1..]);
    assert_eq!(shown, expected);
    assert_eq!(graphs[0].graph_data, expected);
    assert_eq!(shown.chars().count(), GRAPH_WIDTH);
}

#[test]
fn core_window_keeps_latest_twenty() {
    let mut graphs: Vec<CoreGraph> = Vec::new();
    let glyphs = ["⣀", "⣤", "⣶", "⣿"];
    let mut last = String::new();
    for k in 0..45 {
        last = record_core_sample(&mut graphs, &"h".to_string(), 3, glyphs[k % 4]);
        assert!(graphs[0].graph_data.chars().count() <= GRAPH_WIDTH);
    }
    let expected: String = (25..45).map(|k| glyphs[k % 4]).collect();
    assert_eq!(last, expected);
}

#[test]
fn core_samples_are_kept_per_host_and_core() {
    let mut graphs: Vec<CoreGraph> = Vec::new();
    record_core_sample(&mut graphs, &"a".to_string(), 0, "⣀");
    record_core_sample(&mut graphs, &"a".to_string(), 1, "⣀");
    record_core_sample(&mut graphs, &"b".to_string(), 0, "⣀");
    assert_eq!(graphs.len(), 3);
    let shown = record_core_sample(&mut graphs, &"a".to_string(), 1, "⣿");
    assert!(shown.ends_with('⣿'));
    assert_eq!(graphs[0].graph_data, BLANK);
    assert!(graphs[1].graph_data.ends_with('⣿'));
    assert_eq!(graphs[2].graph_data, BLANK);
}

#[test]
fn short_window_grows() {
    let mut graphs = vec![CoreGraph { hostname: "h".to_string(), core_index: 2, graph_data: "ab".to_string() }];
    let shown = record_core_sample(&mut graphs, &"h".to_string(), 2, "c");
    assert_eq!(shown, "abc");
    assert_eq!(graphs[0].graph_data, "abc");
}

#[test]
fn ram_samples() {
    let mut graphs: Vec<RAMGraph> = Vec::new();
    assert_eq!(record_ram_sample(&mut graphs, &"h".to_string(), "⣶"), "⣶");
    assert_eq!(graphs[0].graph_data, BLANK);
    let shown = record_ram_sample(&mut graphs, &"h".to_string(), "⣶");
    assert_eq!(shown, format!("{}⣶", &BLANK[1..]));
    record_ram_sample(&mut graphs, &"g".to_string(), "⣀");
    assert_eq!(graphs.len(), 2);
    assert_eq!(graphs[0].graph_data, format!("{}⣶", &BLANK[1..]));
}

#[test]
fn selection_wraps() {
    assert_eq!(select_previous(0, 3), 2);
    assert_eq!(select_previous(2, 3), 1);
    assert_eq!(select_next(2, 3), 0);
    assert_eq!(select_next(0, 3), 1);
    assert_eq!(select_previous(0, 0), -1);
    assert_eq!(select_next(-1, 0), 0);
}

#[test]
fn selection_round_trip() {
    for len in 1usize..6 {
        for i in 0..len as i32 {
            assert_eq!(select_previous(select_next(i, len), len), i);
            assert_eq!(select_next(select_previous(i, len), len), i);
        }
    }
}

#[test]
fn keys() {
    assert_eq!(handle_key(1, 4, Key::Quit), (1, true));
    assert_eq!(handle_key(1, 4, Key::Up), (0, false));
    assert_eq!(handle_key(3, 4, Key::Down), (0, false));
    assert_eq!(handle_key(2, 4, Key::Other), (2, false));
}

#[test]
fn colors() {
    assert_eq!(usage_color(0), (0, 202, 0));
    assert_eq!(usage_color(50), (100, 102, 0));
    assert_eq!(usage_color(101), (202, 0, 0));
}

#[test]
fn glyphs() {
    assert_eq!(bar_glyph(1), '⣀');
    assert_eq!(bar_glyph(2), '⣤');
    assert_eq!(bar_glyph(3), '⣶');
    assert_eq!(bar_glyph(4), '⣿');
}

#[test]
fn padding() {
    assert_eq!(label_padding(0), 10);
    assert_eq!(label_padding(6), 4);
    assert_eq!(label_padding(10), 0);
    assert_eq!(label_padding(15), 0);
}

#[test]
fn connectors() {
    assert_eq!(core_connector(0, 4), '├');
    assert_eq!(core_connector(3, 4), '╰');
    assert_eq!(core_connector(0, 1), '╰');
}

#[test]
fn node_samples_one_graph_per_core() {
    let mut graphs: Vec<CoreGraph> = Vec::new();
    record_core_sample(&mut graphs, &"other".to_string(), 0, "⣀");
    record_core_sample(&mut graphs, &"h".to_string(), 1, "⣀");
    let bars: Vec<String> = vec!["⣀".to_string(), "⣤".to_string(), "⣿".to_string()];
    let shown = record_core_samples(&mut graphs, &"h".to_string(), &bars);
    assert_eq!(shown[0], "⣀");
    assert_eq!(shown[1], format!("{}⣤", &BLANK[1..]));
    assert_eq!(shown[2], "⣿");
    assert_eq!(graphs.len(), 4);
    for k in 0..3 {
        let n = graphs.iter().filter(|g| g.hostname == "h" && g.core_index == k).count();
        assert_eq!(n, 1);
    }
    assert_eq!(graphs[0].hostname, "other");
    let again = record_core_samples(&mut graphs, &"h".to_string(), &bars);
    assert_eq!(graphs.len(), 4);
    assert_eq!(again[2], format!("{}⣿", &BLANK[1..]));
}

#[test]
fn full_cycle_of_presses_returns() {
    for len in 1usize..7 {
        for start in 0..len as i32 {
            let mut i = start;
            for _ in 0..len {
                i = handle_key(i, len, Key::Down).0;
                assert!(0 <= i && (i as usize) < len);
            }
            assert_eq!(i, start);
            for _ in 0..len {
                i = handle_key(i, len, Key::Up).0;
                assert!(0 <= i && (i as usize) < len);
            }
            assert_eq!(i, start);
        }
    }
}

#[test]
fn quit_and_other_keys_ignore_count() {
    assert_eq!(handle_key(5, usize::MAX, Key::Quit), (5, true));
    assert_eq!(handle_key(5, usize::MAX, Key::Other), (5, false));
}
