use vai::aliasopts::{AliasOpts, CT};

fn lit(a: Vec<&str>) -> Vec<String> {
    a.iter().map(|s| s.to_string()).collect()
}

#[test]
fn sample_url() {
    let a = lit(vec!["-u", "http://github.com"]);
    let mut opts = AliasOpts::new();
    opts.add("--url", CT::CTString).add_alias("-u", "--url").parse(a);
    assert_eq!(opts.get("--url"), Some("http://github.com".to_string()));
}

#[test]
fn sample_file() {
    let a = lit(vec!["-f=shortcut/foo"]);
    let mut opts = AliasOpts::new();
    opts.add("--file", CT::CTString).add_alias("-f", "--file").parse(a);
    assert_eq!(opts.get("--file"), Some("shortcut/foo".to_string()));
}

#[test]
fn sample_loose() {
    let a = lit(vec!["foo", "bar", "baz"]);
    let mut opts = AliasOpts::new();
    opts.parse(a);
    assert_eq!(opts.get_loose(2), Some("baz".to_string()));
}

#[test]
fn sample_mode() {
    let a = lit(vec!["--mode", "foo", "bar"]);
    let mut opts = AliasOpts::new();
    opts.add("--mode", CT::CTString).add_alias("-m", "--mode").parse(a);
    assert_eq!(opts.get("--mode"), Some("foo".to_string()));
    assert_eq!(opts.get_loose(0), Some("bar".to_string()));
}

#[test]
fn sample_funky_file() {
    let a = lit(vec!["--file", "foo", "-f", "bar", "--file", "baz"]);
    let mut opts = AliasOpts::new();
    opts.add("--file", CT::CTString).add_alias("-f", "--file").parse(a);
    assert_eq!(opts.get("--file"), Some("baz".to_string()));
}

#[test]
fn sample_funky_file2() {
    let a = lit(vec!["--file", "-f", "foo"]);
    let mut opts = AliasOpts::new();
    opts.add("--file", CT::CTString).add_alias("-f", "--file").parse(a);
    assert_eq!(opts.get("--file"), Some("foo".to_string()));
}

#[test]
fn sample_flag() {
    let a = lit(vec!["--file", "-f", "--enable-logging"]);
    let mut opts = AliasOpts::new();
    opts.add("--enable-logging", CT::Flag).parse(a);
    assert_eq!(opts.get("--enable-logging"), Some("".to_string()));
}

#[test]
fn flag_with_equals_takes_no_value() {
    let mut opts = AliasOpts::new();
    opts.add("--verbose", CT::Flag).parse(lit(vec!["--verbose=yes"]));
    assert_eq!(opts.get("--verbose"), None);
    assert!(opts.is_empty());
    assert!(!opts.got("--verbose"));
}

#[test]
fn empty_value_after_equals_is_ignored() {
    let mut opts = AliasOpts::new();
    opts.add("--file", CT::CTString).parse(lit(vec!["--file="]));
    assert_eq!(opts.get("--file"), None);
    assert_eq!(opts.loose_len(), 0);
}

#[test]
fn option_at_end_without_value() {
    let mut opts = AliasOpts::new();
    opts.add("--file", CT::CTString).parse(lit(vec!["x", "--file"]));
    assert_eq!(opts.get("--file"), None);
    assert_eq!(opts.loose(), vec!["x".to_string()]);
    assert!(!opts.is_empty());
}

#[test]
fn alias_for_alias_is_refused() {
    let mut opts = AliasOpts::new();
    opts.add("--file", CT::CTString)
        .add_alias("-f", "--file")
        .add_alias("-g", "-f")
        .add_alias("-h", "--missing")
        .parse(lit(vec!["-g", "a", "-h", "b"]));
    assert_eq!(opts.get("--file"), None);
    assert_eq!(opts.loose(), lit(vec!["-g", "a", "-h", "b"]));
}

#[test]
fn alias_and_name_are_interchangeable() {
    let mut x = AliasOpts::new();
    x.add("--file", CT::CTString).add_alias("-f", "--file").parse(lit(vec!["-f", "a", "z"]));
    let mut y = AliasOpts::new();
    y.add("--file", CT::CTString).add_alias("-f", "--file").parse(lit(vec!["--file", "a", "z"]));
    assert_eq!(x.values(), y.values());
    assert_eq!(x.loose(), y.loose());
    assert!(x.got("--file"));
    assert!(!x.got("-f"));
}

#[test]
fn values_lists_each_option_once() {
    let mut opts = AliasOpts::new();
    opts.add("--a", CT::CTString).add("--b", CT::Flag).parse(lit(vec!["--a", "1", "--b", "--a=2"]));
    assert_eq!(
        opts.values(),
        vec![("--a".to_string(), "2".to_string()), ("--b".to_string(), "".to_string())]
    );
}

#[test]
fn last_value_wins_after_any_arguments() {
    let a = lit(vec!["loose", "--file", "x", "--mode=m", "-f", "y"]);
    let mut opts = AliasOpts::new();
    opts.add("--file", CT::CTString).add_alias("-f", "--file").add("--mode", CT::CTString).parse(a);
    assert_eq!(opts.get("--file"), Some("y".to_string()));
    assert_eq!(opts.get("--mode"), Some("m".to_string()));
    assert_eq!(opts.loose(), lit(vec!["loose"]));
}

#[test]
fn parsing_keeps_earlier_loose_arguments_first() {
    let mut opts = AliasOpts::new();
    opts.add("--n", CT::Flag);
    opts.parse(lit(vec!["a", "--n"]));
    opts.parse(lit(vec!["b", "--n=3"]));
    assert_eq!(opts.loose(), lit(vec!["a", "b"]));
    assert_eq!(opts.get("--n"), Some("".to_string()));
    assert!(opts.got("--n"));
    assert_eq!(opts.loose_len(), 2);
    assert!(!opts.is_empty());
}

#[test]
fn dangling_use_finds_aliases_of_undeclared_options() {
    let mut opts = AliasOpts::new();
    opts.add("--file", CT::CTString).add("-x", CT::Alias);
    assert!(opts.dangling_use(&lit(vec!["a", "-x"])));
    assert!(opts.dangling_use(&lit(vec!["-x=3"])));
    assert!(!opts.dangling_use(&lit(vec!["a", "--file", "b"])));
    opts.parse(lit(vec!["a", "--file", "b"]));
    assert_eq!(opts.get("--file"), Some("b".to_string()));
    let names: Vec<String> = opts.values().into_iter().map(|(k, _)| k).collect();
    assert_eq!(names, lit(vec!["--file"]));
}

#[test]
fn alias_with_value_and_name_with_value_are_interchangeable() {
    let parse = |a: Vec<&str>| {
        let mut opts = AliasOpts::new();
        opts.add("--file", CT::CTString).add_alias("-f", "--file").add("--n", CT::Flag).parse(lit(a));
        (opts.values(), opts.loose())
    };
    assert_eq!(parse(vec!["x", "-f=a.txt", "--n"]), parse(vec!["x", "--file=a.txt", "--n"]));
    assert_eq!(parse(vec!["--n", "-f=b"]).0, vec![("--n".to_string(), "".to_string()), ("--file".to_string(), "b".to_string())]);
    // Right after an option that takes a value, the argument is that value, as written.
    assert_eq!(parse(vec!["--file", "-f=c"]).0, vec![("--file".to_string(), "-f=c".to_string())]);
}

#[test]
fn alias_written_as_its_option_everywhere_gives_the_same_parse() {
    let parse = |a: Vec<&str>| {
        let mut opts = AliasOpts::new();
        opts.add("--file", CT::CTString).add_alias("-f", "--file").add("--mode", CT::CTString).parse(lit(a));
        (opts.values(), opts.loose())
    };
    assert_eq!(
        parse(vec!["-f", "a", "x", "-f=b", "--mode", "-f=c", "y"]),
        parse(vec!["--file", "a", "x", "--file=b", "--mode", "-f=c", "y"])
    );
}

#[test]
fn dangling_use_follows_the_arguments_parsing_reads() {
    let mut opts = AliasOpts::new();
    opts.add("--file", CT::CTString).add("-x", CT::Alias).add("-x=y", CT::Flag);
    // A declared name that begins with "-x=" is read as itself.
    assert!(!opts.dangling_use(&lit(vec!["-x=y"])));
    // An argument taken as the value of an option is not read as an option.
    assert!(!opts.dangling_use(&lit(vec!["--file", "-x=3"])));
    assert!(opts.dangling_use(&lit(vec!["--file", "-x"])));
    assert!(!opts.dangling_use(&lit(vec!["-x="])));
    opts.parse(lit(vec!["-x=y", "--file", "-x=3", "-x="]));
    assert_eq!(opts.get("-x=y"), Some("".to_string()));
    assert_eq!(opts.get("--file"), Some("-x=3".to_string()));
}

#[test]
fn parsing_adds_at_most_one_loose_argument_per_argument() {
    let mut opts = AliasOpts::new();
    opts.add("--n", CT::Flag);
    opts.parse(lit(vec!["a", "--n", "b"]));
    let before = opts.loose_len();
    opts.parse(lit(vec!["c", "--n"]));
    assert!(opts.loose_len() >= before);
    assert!(opts.loose_len() <= before + 2);
    assert_eq!(opts.loose(), lit(vec!["a", "b", "c"]));
}
