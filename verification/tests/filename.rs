use std::path::PathBuf;
use turm::filename::FilenameContext;
use turm::path::join;

fn ctx<'a>() -> FilenameContext<'a> {
    FilenameContext {
        array_master: "100",
        array_id: "2",
        id: "12345",
        host: "node01,node02",
        user: "alice",
        name: "myjob",
        working_dir: "/home/alice",
    }
}

fn resolve(context: &FilenameContext, path: &str) -> PathBuf {
    PathBuf::from(context.resolve(path).unwrap())
}

#[test]
fn substitutes_job_id_and_user() {
    let resolved = resolve(&ctx(), "out-%j-%u.log");
    assert_eq!(resolved, PathBuf::from("/home/alice/out-12345-alice.log"));
}

#[test]
fn substitutes_first_node_from_list() {
    let resolved = resolve(&ctx(), "%N.out");
    assert_eq!(resolved, PathBuf::from("/home/alice/node01.out"));
}

#[test]
fn substitutes_first_node_from_list_single_node() {
    let context = FilenameContext {
        host: "node01",
        ..ctx()
    };
    let resolved = resolve(&context, "%N.out");
    assert_eq!(resolved, PathBuf::from("/home/alice/node01.out"));
}

#[test]
fn na_array_id_uses_sentinel() {
    let context = FilenameContext {
        array_id: "N/A",
        ..ctx()
    };
    let resolved = resolve(&context, "%a.out");
    assert_eq!(resolved, PathBuf::from("/home/alice/4294967294.out"));
}

#[test]
fn substitutes_percent_a_with_real_id() {
    let resolved = resolve(&ctx(), "%a.out");
    assert_eq!(resolved, PathBuf::from("/home/alice/2.out"));
}

#[test]
fn substitutes_percent_capital_a() {
    let resolved = resolve(&ctx(), "%A.out");
    assert_eq!(resolved, PathBuf::from("/home/alice/100.out"));
}

#[test]
fn substitutes_percent_capital_j() {
    let resolved = resolve(&ctx(), "%J.out");
    assert_eq!(resolved, PathBuf::from("/home/alice/12345.out"));
}

#[test]
fn substitutes_percent_x() {
    let resolved = resolve(&ctx(), "%x.out");
    assert_eq!(resolved, PathBuf::from("/home/alice/myjob.out"));
}

#[test]
fn absolute_path_is_preserved() {
    let resolved = resolve(&ctx(), "/scratch/%u/%j.out");
    assert_eq!(resolved, PathBuf::from("/scratch/alice/12345.out"));
}

#[test]
fn empty_path_falls_back_to_working_dir() {
    let resolved = resolve(&ctx(), "");
    assert_eq!(resolved, PathBuf::from("/home/alice/slurm-100_2.out"));
}

#[test]
fn literal_percent_and_misc_specifiers() {
    let resolved = resolve(&ctx(), "%%literal-%n-%s-%t.out");
    assert_eq!(
        resolved,
        PathBuf::from("/home/alice/%literal-0-batch-0.out")
    );
}

#[test]
fn empty_path_of_a_job_in_no_array() {
    let context = FilenameContext {
        array_id: "N/A",
        ..ctx()
    };
    assert_eq!(context.resolve("").unwrap(), "/home/alice/slurm-12345.out");
    let unset = FilenameContext {
        array_id: "4294967294",
        ..ctx()
    };
    assert_eq!(unset.resolve("").unwrap(), "/home/alice/slurm-12345.out");
}

#[test]
fn empty_path_in_a_working_dir_with_a_specifier_or_a_relative_one() {
    let with_specifier = FilenameContext {
        working_dir: "/home/%u",
        ..ctx()
    };
    assert_eq!(
        with_specifier.resolve("").unwrap(),
        "/home/alice/slurm-100_2.out"
    );
    let relative = FilenameContext {
        working_dir: "work",
        ..ctx()
    };
    assert_eq!(relative.resolve("").unwrap(), "work/work/slurm-100_2.out");
    let empty = FilenameContext {
        working_dir: "",
        ..ctx()
    };
    assert_eq!(empty.resolve("").unwrap(), "slurm-100_2.out");
}

#[test]
fn other_percent_signs_are_kept() {
    assert_eq!(ctx().resolve("/a%z-%b%").unwrap(), "/a%z-%b%");
    assert_eq!(ctx().resolve("/%").unwrap(), "/%");
    assert_eq!(ctx().resolve("/50%\u{e9}").unwrap(), "/50%\u{e9}");
}

#[test]
fn specifiers_are_found_from_left_to_right() {
    assert_eq!(ctx().resolve("/%%j").unwrap(), "/%j");
    assert_eq!(ctx().resolve("/%%%j").unwrap(), "/%12345");
    assert_eq!(ctx().resolve("/%z%j%%").unwrap(), "/%z12345%");
}

#[test]
fn values_are_not_searched_again() {
    let context = FilenameContext {
        name: "%u",
        ..ctx()
    };
    assert_eq!(context.resolve("/%x").unwrap(), "/%u");
    let dollar = FilenameContext {
        name: "$0$1",
        ..ctx()
    };
    assert_eq!(dollar.resolve("/%x").unwrap(), "/$0$1");
}

#[test]
fn a_value_can_make_a_path_absolute() {
    let context = FilenameContext {
        name: "/tmp/a",
        ..ctx()
    };
    assert_eq!(context.resolve("%x.out").unwrap(), "/tmp/a.out");
}

#[test]
fn expand_gives_each_value() {
    let context = ctx();
    assert_eq!(context.expand("%%"), "%");
    assert_eq!(context.expand("%A"), "100");
    assert_eq!(context.expand("%a"), "2");
    assert_eq!(context.expand("%J"), "12345");
    assert_eq!(context.expand("%j"), "12345");
    assert_eq!(context.expand("%N"), "node01");
    assert_eq!(context.expand("%n"), "0");
    assert_eq!(context.expand("%s"), "batch");
    assert_eq!(context.expand("%t"), "0");
    assert_eq!(context.expand("%u"), "alice");
    assert_eq!(context.expand("%x"), "myjob");
    assert_eq!(context.array_task(), "2");
}

#[test]
fn first_node_of_odd_host_lists() {
    let empty = FilenameContext { host: "", ..ctx() };
    assert_eq!(empty.resolve("/%N.out").unwrap(), "/.out");
    let leading = FilenameContext {
        host: ",node02",
        ..ctx()
    };
    assert_eq!(leading.resolve("/%N.out").unwrap(), "/.out");
}

#[test]
fn join_agrees_with_the_standard_library() {
    let paths = ["", "/", "a", "/a", "a/", "/a/", "a/b", "/a/b", "//", "\u{e9}/", "."];
    for base in paths {
        for path in paths {
            let expected = PathBuf::from(base).join(path);
            assert_eq!(join(base, path), expected.to_str().unwrap());
        }
    }
}
