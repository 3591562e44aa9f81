use rl::collect::{get_initial_entries, is_listed, listing_is_valid, listing_paths, process_directory, run};
use rl::config::Cli;
use rl::entry::{Child, DirListing, Directory, Entry, Meta, Probe};
use rl::layout::{columns_for, layout_block, output_names_simple, render_grid, Grid};
use rl::matchers::Matchers;
use rl::names::{entry_to_output_with_frills, has_white_space, is_white_space_char};
use rl::order::{name_lt, sort_by_name};
use rl::walk::{header_line, Walk};

fn cli() -> Cli {
    Cli {
        paths: vec![],
        all: false,
        almost_all: false,
        directory: false,
        recursive: false,
        classify: false,
        long: false,
        long_o: false,
        long_g: false,
        no_group: false,
        no_owner: false,
        quote_name: false,
        width: None,
        one: false,
        zero: false,
    }
}

fn file(name: &str) -> Entry {
    Entry { name: name.to_string(), meta: Meta { is_dir: false } }
}

fn child(parent: &str, name: &str, is_dir: bool) -> Child {
    Child { path: format!("{}/{}", parent, name), name: name.to_string(), meta: Meta { is_dir } }
}

fn listing(parent: &str, children: &[(&str, bool)]) -> DirListing {
    DirListing {
        self_meta: Some(Meta { is_dir: true }),
        parent_meta: Some(Meta { is_dir: true }),
        children: children.iter().map(|(n, d)| child(parent, n, *d)).collect(),
    }
}

fn names(v: &[Entry]) -> Vec<String> {
    v.iter().map(|e| e.name.clone()).collect()
}

fn show(name: &str, config: &Cli) -> (String, usize, bool) {
    let m = Matchers::new();
    let out = entry_to_output_with_frills(&file(name), config, &m);
    (out.name, out.size, out.quoted)
}

#[test]
fn plain_name_is_unquoted() {
    assert_eq!(show("file.txt", &cli()), ("file.txt".to_string(), 8, false));
    assert_eq!(show("a-b_c.rs", &cli()), ("a-b_c.rs".to_string(), 8, false));
}

#[test]
fn spaced_name_is_quoted_and_escaped() {
    assert_eq!(show("my file.txt", &cli()), ("\"my\\ file.txt\"".to_string(), 14, true));
}

#[test]
fn forced_quoting_uses_double_quotes() {
    let mut c = cli();
    c.quote_name = true;
    assert_eq!(show("my file.txt", &c), ("\"my file.txt\"".to_string(), 13, true));
    assert_eq!(show("plain", &c), ("\"plain\"".to_string(), 7, true));
    assert_eq!(show("a\"b", &c), ("\"a\\\"b\"".to_string(), 6, true));
}

#[test]
fn single_quote_and_white_space_escaped_once() {
    assert_eq!(show("it's x", &cli()), ("\"it\\'s\\ x\"".to_string(), 10, true));
    assert_eq!(show("a\tb", &cli()), ("\"a\\\tb\"".to_string(), 6, true));
    assert_eq!(show("a  b", &cli()), ("\"a\\ \\ b\"".to_string(), 8, true));
}

#[test]
fn single_quote_alone_is_not_quoted() {
    assert_eq!(show("it's", &cli()), ("it's".to_string(), 4, false));
}

#[test]
fn indicator_characters_ask_for_quotes() {
    for name in ["a=b", "a|b", "a@b", "a*b", "a/b"] {
        let (shown, size, quoted) = show(name, &cli());
        assert_eq!(shown, format!("\"{}\"", name));
        assert_eq!(size, 5);
        assert!(quoted);
    }
}

#[test]
fn matchers_escape() {
    let m = Matchers::new();
    assert!(m.has_indicator("x@y"));
    assert!(!m.has_indicator("xy"));
    assert_eq!(m.escape_white_space("a b\nc"), "a\\ b\\\nc");
    assert_eq!(m.escape_single_quotes("a'b'"), "a\\'b\\'");
    assert_eq!(m.escape_double_quotes("\"q\""), "\\\"q\\\"");
}

#[test]
fn white_space_characters() {
    for c in ['\t', '\n', '\u{b}', '\u{c}', '\r', ' ', '\u{85}', '\u{a0}', '\u{2003}', '\u{3000}'] {
        assert!(is_white_space_char(c));
        assert_eq!(c.is_whitespace(), is_white_space_char(c));
    }
    for c in ['a', '_', '\u{200b}', '\u{180e}'] {
        assert_eq!(c.is_whitespace(), is_white_space_char(c));
    }
    assert!(has_white_space("a b"));
    assert!(!has_white_space("ab"));
    assert!(!has_white_space(""));
}

#[test]
fn column_count_largest_that_fits() {
    // 10 * c + 2 * (c - 1) <= 80 holds up to c = 6
    assert_eq!(columns_for(10, 2, 0, 80, 100), 6);
    assert_eq!(columns_for(10, 2, 0, 80, 3), 3);
    // one lead space and a gap of three
    assert_eq!(columns_for(10, 3, 1, 80, 100), 6);
    assert_eq!(columns_for(20, 3, 1, 80, 100), 3);
}

#[test]
fn column_count_single_wide_name() {
    assert_eq!(columns_for(200, 2, 0, 80, 1), 1);
    assert_eq!(columns_for(200, 2, 0, 80, 5), 1);
    assert_eq!(columns_for(5, 2, 0, 80, 0), 1);
    assert_eq!(columns_for(usize::MAX, 2, 0, 80, 3), 1);
}

#[test]
fn column_count_monotone_in_cell_width() {
    let mut last = usize::MAX;
    for cell in 0..120 {
        let c = columns_for(cell, 2, 0, 80, 40);
        assert!(c >= 1);
        assert!(c <= last);
        last = c;
    }
}

#[test]
fn layout_two_names_one_row() {
    let m = Matchers::new();
    let entries = vec![file("a"), file("b")];
    let grid = output_names_simple(&entries, 80, &cli(), &m);
    assert_eq!(grid.cols, 2);
    assert_eq!(grid.cell, 1);
    assert_eq!(grid.leader, 0);
    assert_eq!(grid.spacer, 2);
    assert_eq!(render_grid(&grid), vec!["a  b".to_string()]);
}

#[test]
fn layout_quoted_name_adds_lead() {
    let m = Matchers::new();
    let entries = vec![file("a b"), file("cc")];
    let grid = output_names_simple(&entries, 80, &cli(), &m);
    assert_eq!(grid.leader, 1);
    assert_eq!(grid.spacer, 3);
    assert_eq!(grid.cell, 6);
    assert_eq!(grid.names, vec!["\"a\\ b\"".to_string(), "cc".to_string()]);
    assert_eq!(render_grid(&grid), vec![" \"a\\ b\"   cc".to_string()]);
}

#[test]
fn layout_one_per_line_and_narrow_width() {
    let m = Matchers::new();
    let entries = vec![file("aaa"), file("b"), file("cc")];
    let mut c = cli();
    c.one = true;
    let grid = output_names_simple(&entries, 80, &c, &m);
    assert_eq!(grid.cols, 1);
    assert_eq!(render_grid(&grid), vec!["aaa", "b", "cc"]);
    let grid = output_names_simple(&entries, 8, &cli(), &m);
    assert_eq!(grid.cols, 2);
    assert_eq!(render_grid(&grid), vec!["aaa  b", "cc"]);
    let grid = output_names_simple(&entries, 0, &cli(), &m);
    assert_eq!(grid.cols, 3);
}

#[test]
fn render_partial_last_row() {
    let grid = Grid {
        names: vec!["a", "bb", "c", "d", "e"].into_iter().map(String::from).collect(),
        cols: 2,
        cell: 2,
        spacer: 2,
        leader: 0,
    };
    assert_eq!(render_grid(&grid), vec!["a   bb", "c   d", "e"]);
    let empty = Grid { names: vec![], cols: 1, cell: 0, spacer: 2, leader: 0 };
    assert!(render_grid(&empty).is_empty());
}

#[test]
fn hidden_child_filtering() {
    let l = listing("d", &[(".config", false), ("a", false)]);
    let mut e = vec![];
    let mut d = vec![];
    process_directory(&l, &mut e, &mut d, &cli());
    assert_eq!(names(&e), vec!["a"]);

    let mut c = cli();
    c.almost_all = true;
    let mut e = vec![];
    process_directory(&l, &mut e, &mut d, &c);
    assert_eq!(names(&e), vec![".config", "a"]);

    let mut c = cli();
    c.all = true;
    let mut e = vec![];
    process_directory(&l, &mut e, &mut d, &c);
    assert_eq!(names(&e), vec![".", "..", ".config", "a"]);
    assert!(d.is_empty());
}

#[test]
fn recursive_children_are_deferred() {
    let l = listing("d", &[("b", false), ("sub", true), ("a", false)]);
    let mut e = vec![];
    let mut d = vec![];
    process_directory(&l, &mut e, &mut d, &cli());
    assert_eq!(names(&e), vec!["b", "sub", "a"]);
    assert!(d.is_empty());

    let mut c = cli();
    c.recursive = true;
    let mut e = vec![];
    process_directory(&l, &mut e, &mut d, &c);
    assert_eq!(names(&e), vec!["b", "a"]);
    assert_eq!(d.len(), 1);
    assert_eq!(d[0].name, "sub");
    assert_eq!(d[0].path, "d/sub");
}

#[test]
fn initial_entry_kinds() {
    let dir = Meta { is_dir: true };
    let f = Meta { is_dir: false };
    let p = "x".to_string();
    let mut e: Vec<Entry> = vec![];
    let mut d: Vec<Directory> = vec![];
    assert!(get_initial_entries(&p, dir, true, &mut e, &mut d, &cli()));
    assert!(e.is_empty() && d.is_empty());
    assert!(!get_initial_entries(&p, dir, false, &mut e, &mut d, &cli()));
    assert_eq!(d.len(), 1);
    let mut c = cli();
    c.directory = true;
    assert!(!get_initial_entries(&p, dir, true, &mut e, &mut d, &c));
    assert_eq!(names(&e), vec!["x"]);
    assert!(!get_initial_entries(&p, f, true, &mut e, &mut d, &cli()));
    assert_eq!(e.len(), 2);
    let mut c = cli();
    c.recursive = true;
    assert!(!get_initial_entries(&p, dir, true, &mut e, &mut d, &c));
    assert_eq!(d.len(), 2);
}

#[test]
fn top_level_run() {
    let probes = vec![
        Probe { path: "f".to_string(), meta: Some(Meta { is_dir: false }) },
        Probe { path: "gone".to_string(), meta: None },
        Probe { path: "d".to_string(), meta: Some(Meta { is_dir: true }) },
    ];
    let top = run(&probes, &cli());
    assert_eq!(names(&top.entries), vec!["f"]);
    assert_eq!(top.dirs.len(), 1);
    assert_eq!(top.dirs[0].path, "d");
    assert!(top.expand.is_none());

    let solo = vec![Probe { path: "d".to_string(), meta: Some(Meta { is_dir: true }) }];
    let top = run(&solo, &cli());
    assert_eq!(top.expand, Some("d".to_string()));
    assert!(top.entries.is_empty() && top.dirs.is_empty());
}

#[test]
fn default_path_is_current_directory() {
    assert_eq!(listing_paths(&cli()), vec!["."]);
    let mut c = cli();
    c.paths = vec!["a".to_string(), "b".to_string()];
    assert_eq!(listing_paths(&c), vec!["a", "b"]);
}

#[test]
fn names_sort_by_code_point() {
    assert!(name_lt("a", "b"));
    assert!(name_lt("B", "a"));
    assert!(name_lt("ab", "abc"));
    assert!(!name_lt("abc", "ab"));
    assert!(!name_lt("a", "a"));
    let sorted = sort_by_name(vec![file("sub"), file("b"), file("a"), file("B")]);
    assert_eq!(names(&sorted), vec!["B", "a", "b", "sub"]);
    let again = sort_by_name(sorted);
    assert_eq!(names(&again), vec!["B", "a", "b", "sub"]);
}

#[test]
fn header_text() {
    assert_eq!(header_line(&"d/sub".to_string()), "d/sub:");
}

/// Lists a tree held in memory, the way the program lists the file system.
fn list_tree(
    paths: &[&str],
    tree: &dyn Fn(&str) -> Option<DirListing>,
    config: &Cli,
    width: u32,
) -> Vec<String> {
    let m = Matchers::new();
    let probes: Vec<Probe> = paths
        .iter()
        .map(|p| Probe {
            path: p.to_string(),
            meta: Some(Meta { is_dir: tree(p).is_some() }),
        })
        .collect();
    let top = run(&probes, config);
    let mut entries = top.entries;
    let mut dirs = top.dirs;
    if let Some(p) = top.expand {
        process_directory(&tree(&p).unwrap(), &mut entries, &mut dirs, config);
    }
    let mut out = vec![];
    let mut walk = Walk::new();
    let block = walk.produce_output(entries, dirs);
    if !block.is_empty() {
        out.extend(render_grid(&output_names_simple(&block, width, config, &m)));
    }
    while let Some(h) = walk.next_header() {
        if h.blank {
            out.push(String::new());
        }
        out.push(header_line(&h.dir.path));
        let mut e = vec![];
        let mut d = vec![];
        process_directory(&tree(&h.dir.path).unwrap(), &mut e, &mut d, config);
        let block = walk.produce_output(e, d);
        if !block.is_empty() {
            out.extend(render_grid(&output_names_simple(&block, width, config, &m)));
        }
    }
    out
}

fn sample_tree(p: &str) -> Option<DirListing> {
    match p {
        "d" => Some(listing("d", &[("b", false), ("a", false), ("sub", true)])),
        "d/sub" => Some(listing("d/sub", &[("z", false), ("inner", true)])),
        "d/sub/inner" => Some(listing("d/sub/inner", &[("deep", false)])),
        _ => None,
    }
}

#[test]
fn scenario_non_recursive() {
    let out = list_tree(&["d"], &sample_tree, &cli(), 80);
    assert_eq!(out, vec!["a    b    sub"]);
}

#[test]
fn scenario_recursive() {
    let mut c = cli();
    c.recursive = true;
    let out = list_tree(&["d"], &sample_tree, &c, 80);
    assert_eq!(
        out,
        vec!["d:", "a  b", "", "d/sub:", "z", "", "d/sub/inner:", "deep"]
    );
    // one header per expanded directory, each after the first preceded by a blank line
    let headers = out.iter().filter(|l| l.ends_with(':')).count();
    assert_eq!(headers, 3);
}

#[test]
fn scenario_several_paths() {
    let out = list_tree(&["f", "d"], &sample_tree, &cli(), 80);
    assert_eq!(out, vec!["f", "", "d:", "a    b    sub"]);
    let out = list_tree(&["d", "d/sub"], &sample_tree, &cli(), 80);
    assert_eq!(out, vec!["d:", "a    b    sub", "", "d/sub:", "inner  z"]);
}

#[test]
fn scenario_spaced_name() {
    let m = Matchers::new();
    let entries = vec![file("my file.txt")];
    let grid = output_names_simple(&entries, 80, &cli(), &m);
    assert_eq!(render_grid(&grid), vec![" \"my\\ file.txt\""]);
}

#[test]
fn one_per_line_has_no_lead() {
    let m = Matchers::new();
    let entries = vec![file("a b"), file("c")];
    let mut c = cli();
    c.one = true;
    let grid = output_names_simple(&entries, 80, &c, &m);
    assert_eq!(grid.leader, 0);
    assert_eq!(render_grid(&grid), vec!["\"a\\ b\"", "c"]);
    let mut c = cli();
    c.zero = true;
    let grid = output_names_simple(&entries, 80, &c, &m);
    assert_eq!(grid.leader, 0);
    assert_eq!(grid.cols, 1);
}

#[test]
fn block_layout_from_options() {
    let entries = vec![file("a"), file("b"), file("c")];
    // no width given: one name per line
    assert_eq!(render_grid(&layout_block(&entries, &cli())), vec!["a", "b", "c"]);
    let mut c = cli();
    c.width = Some(80);
    assert_eq!(render_grid(&layout_block(&entries, &c)), vec!["a  b  c"]);
    c.width = Some(4);
    assert_eq!(render_grid(&layout_block(&entries, &c)), vec!["a  b", "c"]);
    c.width = Some(0);
    assert_eq!(render_grid(&layout_block(&entries, &c)), vec!["a  b  c"]);
}

#[test]
fn listing_validity() {
    let good = listing("d", &[("a", false), ("b", true)]);
    assert!(listing_is_valid(&good, &cli()));
    let twice = listing("d", &[("a", false), ("a", true)]);
    assert!(!listing_is_valid(&twice, &cli()));
    let dot = listing("d", &[(".", true)]);
    assert!(!listing_is_valid(&dot, &cli()));
    let dot_dot = listing("d", &[("..", true)]);
    assert!(!listing_is_valid(&dot_dot, &cli()));
    let no_meta = DirListing { self_meta: None, parent_meta: None, children: vec![] };
    assert!(listing_is_valid(&no_meta, &cli()));
    let mut c = cli();
    c.all = true;
    assert!(!listing_is_valid(&no_meta, &c));
}

#[test]
fn listed_names() {
    assert!(is_listed("a", &cli()));
    assert!(!is_listed(".config", &cli()));
    let mut c = cli();
    c.almost_all = true;
    assert!(is_listed(".config", &c));
    let mut c = cli();
    c.all = true;
    assert!(is_listed(".config", &c));
}
