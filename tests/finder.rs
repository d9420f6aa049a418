use which::extension::{ends_with_ignoring_ascii_case, has_executable_extension, parse_extension_table};
use which::filter::filter_valid;
use which::finder::{Checker, Error, Finder};
use which::path::{has_separator, join, split_list, to_absolute};

struct OnlyPath(&'static str);

impl Checker for OnlyPath {
    fn is_valid(&self, path: &str) -> bool {
        path == self.0
    }
}

struct Nothing;

impl Checker for Nothing {
    fn is_valid(&self, _path: &str) -> bool {
        false
    }
}

fn strings(v: &[&str]) -> Vec<String> {
    v.iter().map(|s| s.to_string()).collect()
}

fn windows_finder(table: &[&str]) -> Finder {
    Finder::with_extensions(';', strings(table))
}

#[test]
fn separator_classification() {
    assert!(!has_separator("tool"));
    assert!(has_separator("./tool"));
    assert!(has_separator("bin/tool"));
    assert!(has_separator("/tool"));
    assert!(has_separator("../tool"));
    assert!(!has_separator("tool/"));
    assert!(!has_separator("/"));
    assert!(!has_separator("."));
    assert!(!has_separator(""));
    assert!(!has_separator("tool/./"));
    assert!(!has_separator("//"));
}

#[test]
fn joining_paths() {
    assert_eq!(join("/usr/bin", "tool"), "/usr/bin/tool");
    assert_eq!(join("/usr/bin/", "tool"), "/usr/bin/tool");
    assert_eq!(join("", "tool"), "tool");
    assert_eq!(join("/usr/bin", "/opt/tool"), "/opt/tool");
}

#[test]
fn resolving_against_working_directory() {
    assert_eq!(to_absolute("./bin/tool", "/home/u"), "/home/u/./bin/tool");
    assert_eq!(to_absolute("/opt/tool", "/home/u"), "/opt/tool");
}

#[test]
fn splitting_search_lists() {
    assert_eq!(split_list("/usr/bin:/usr/local/bin", ':'), strings(&["/usr/bin", "/usr/local/bin"]));
    assert_eq!(split_list("", ':'), strings(&[""]));
    assert_eq!(split_list("/a::/b:", ':'), strings(&["/a", "", "/b", ""]));
}

#[test]
fn path_name_gives_one_candidate() {
    let f = Finder::new();
    assert_eq!(f.candidates("./bin/tool", None, "/home/u"), Ok(strings(&["/home/u/./bin/tool"])));
    assert_eq!(f.candidates("/opt/x/tool", Some("/usr/bin"), "/home/u"), Ok(strings(&["/opt/x/tool"])));
}

#[test]
fn bare_name_gives_one_candidate_per_directory() {
    let f = Finder::new();
    assert_eq!(
        f.candidates("tool", Some("/a:/b/:"), "/home/u"),
        Ok(strings(&["/a/tool", "/b/tool", "tool"]))
    );
    let dirs = strings(&["/usr/bin", "/usr/local/bin", "/opt/bin"]);
    assert_eq!(
        f.path_search_candidates("tool", &dirs),
        strings(&["/usr/bin/tool", "/usr/local/bin/tool", "/opt/bin/tool"])
    );
}

#[test]
fn bare_name_without_search_list_is_refused() {
    let f = Finder::new();
    assert_eq!(f.candidates("tool", None, "/home/u"), Err(Error::CannotFindBinaryPath));
    assert_eq!(f.find("tool", None, "/home/u", OnlyPath("/home/u/tool")), Err(Error::CannotFindBinaryPath));
}

#[test]
fn unchanged_expansion_is_identity() {
    let f = Finder::new();
    let c = strings(&["/usr/bin/tool", "C:\\bin\\tool", "x.EXE"]);
    assert_eq!(f.append_extension(c.clone()), c);
}

#[test]
fn unsuffixed_candidate_takes_each_suffix() {
    let f = windows_finder(&[".EXE", ".BAT"]);
    assert_eq!(
        f.append_extension(strings(&["C:\\bin\\tool"])),
        strings(&["C:\\bin\\tool.EXE", "C:\\bin\\tool.BAT"])
    );
}

#[test]
fn suffixed_candidate_expands_to_itself() {
    let f = windows_finder(&[".EXE", ".BAT"]);
    assert_eq!(f.append_extension(strings(&["C:\\bin\\tool.EXE"])), strings(&["C:\\bin\\tool.EXE"]));
    assert_eq!(f.append_extension(strings(&["C:\\bin\\tool.exe"])), strings(&["C:\\bin\\tool.exe"]));
}

#[test]
fn unrecognized_suffix_still_takes_each_suffix() {
    let f = windows_finder(&[".EXE"]);
    assert_eq!(f.append_extension(strings(&["tool.sh"])), strings(&["tool.sh.EXE"]));
}

#[test]
fn empty_table_expands_to_nothing() {
    let f = windows_finder(&[]);
    assert_eq!(f.append_extension(strings(&["C:\\bin\\tool", "C:\\bin\\tool.EXE"])), Vec::<String>::new());
}

#[test]
fn expansion_follows_candidate_order() {
    let f = windows_finder(&[".COM", ".EXE"]);
    assert_eq!(
        f.path_search_candidates("tool", &strings(&["C:/a", "C:/b"])),
        strings(&["C:/a/tool.COM", "C:/a/tool.EXE", "C:/b/tool.COM", "C:/b/tool.EXE"])
    );
    assert_eq!(
        f.cwd_search_candidates("bin/tool.exe", "C:/w"),
        strings(&["C:/w/bin/tool.exe"])
    );
}

#[test]
fn suffix_matching_ignores_ascii_case() {
    assert!(ends_with_ignoring_ascii_case("tool.exe", ".EXE"));
    assert!(ends_with_ignoring_ascii_case("TOOL.Exe", ".eXE"));
    assert!(!ends_with_ignoring_ascii_case("tool.exe", ".BAT"));
    assert!(!ends_with_ignoring_ascii_case("EXE", ".EXE"));
    assert!(has_executable_extension("a.bat", &strings(&[".EXE", ".BAT"])));
    assert!(!has_executable_extension("a.sh", &strings(&[".EXE", ".BAT"])));
    assert!(!has_executable_extension("a.exe", &strings(&[])));
}

#[test]
fn parsing_extension_tables() {
    assert_eq!(
        parse_extension_table(".COM;.EXE;bad;;.BAT"),
        strings(&[".COM", ".EXE", ".BAT"])
    );
    assert_eq!(parse_extension_table(""), Vec::<String>::new());
    assert_eq!(parse_extension_table("EXE;BAT"), Vec::<String>::new());
}

#[test]
fn filtering_keeps_order_and_drops_refused() {
    let c = strings(&["a", "b", "c", "d"]);
    assert_eq!(filter_valid(&c, &vec![true, false, true, true]), strings(&["a", "c", "d"]));
    assert_eq!(filter_valid(&c, &vec![false, false, false, false]), Vec::<String>::new());
    assert_eq!(filter_valid(&vec![], &vec![]), Vec::<String>::new());
}

#[test]
fn finds_tool_in_second_directory() {
    let f = Finder::new();
    let r = f.find("tool", Some("/usr/bin:/usr/local/bin"), "/home/u", OnlyPath("/usr/local/bin/tool"));
    assert_eq!(r, Ok(strings(&["/usr/local/bin/tool"])));
}

#[test]
fn missing_relative_path_gives_empty_result() {
    let f = Finder::new();
    let r = f.find("./missing", None, "/home/u", Nothing);
    assert_eq!(r, Ok(Vec::new()));
    let r = f.find("./missing", Some("/usr/bin"), "/home/u", Nothing);
    assert_eq!(r, Ok(Vec::new()));
}

#[test]
fn finds_expanded_candidate_on_suffix_platform() {
    let f = windows_finder(&[".COM", ".EXE"]);
    let r = f.find("tool", Some("C:/a;C:/b"), "C:/w", OnlyPath("C:/b/tool.EXE"));
    assert_eq!(r, Ok(strings(&["C:/b/tool.EXE"])));
}
