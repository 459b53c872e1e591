use classpath::classpath::Classpath;
use classpath::paths::{class_to_path, join_path, split_path_list};
use classpath::source::{
    plan_entry, ConfigError, EntryPlan, Leaf, PathKind, Probe, ProbeFailure, Source,
};

const USER: &str = "/work/resources/test/classpath/user";

fn dir_source(root: &str) -> Source {
    Source::dir(root.to_string(), PathKind::Directory).unwrap()
}

fn file_probe(p: &Probe) -> String {
    match p {
        Probe::File(f) => f.clone(),
        Probe::Entry { .. } => panic!("expected a file probe"),
    }
}

fn empty_system() -> (Source, Source) {
    (
        Source::from_listing("/jre/lib", Some(vec![])).unwrap(),
        Source::from_listing("/jre/lib/ext", Some(vec![])).unwrap(),
    )
}

#[test]
fn class_names_become_paths() {
    assert_eq!("a/b/C.class", class_to_path("a.b.C"));
    assert_eq!("xyz/navyd/ClassFileTest.class", class_to_path("xyz.navyd.ClassFileTest"));
    assert_eq!("HelloWorld.class", class_to_path("HelloWorld"));
    assert_eq!(".class", class_to_path(""));
}

#[test]
fn paths_join_with_one_separator() {
    assert_eq!("/a/b/c.class", join_path("/a/b", "c.class"));
    assert_eq!("/a/b/c.class", join_path("/a/b/", "c.class"));
    assert_eq!("/c", join_path("", "c"));
}

#[test]
fn path_lists_split_on_separator() {
    assert_eq!(vec!["a", "b/c", ""], split_path_list("a:b/c:"));
    assert_eq!(vec!["only"], split_path_list("only"));
    assert_eq!(vec![""], split_path_list(""));
}

#[test]
fn factory_dispatch() {
    match plan_entry("  lib/a.jar:classes ") {
        EntryPlan::List(segs) => assert_eq!(vec!["lib/a.jar", "classes"], segs),
        other => panic!("{:?}", other),
    }
    match plan_entry("/jre/lib/*") {
        EntryPlan::Wildcard(d) => assert_eq!("/jre/lib/", d),
        other => panic!("{:?}", other),
    }
    match plan_entry("resources/test/classpath/user/HelloWorld.jar") {
        EntryPlan::ArchiveFile(f) => assert_eq!("resources/test/classpath/user/HelloWorld.jar", f),
        other => panic!("{:?}", other),
    }
    match plan_entry(" resources/test/classpath/user\n") {
        EntryPlan::Directory(d) => assert_eq!("resources/test/classpath/user", d),
        other => panic!("{:?}", other),
    }
}

#[test]
fn classpath_basics() {
    let entry = dir_source(USER);
    let plan = entry.plan("xyz.navyd.ClassFileTest");
    assert_eq!(1, plan.len());
    assert_eq!(format!("{}/xyz/navyd/ClassFileTest.class", USER), file_probe(&plan[0]));
    let data = entry.settle("xyz.navyd.ClassFileTest", vec![Ok(vec![7u8; 770])]);
    let data = data.unwrap();
    assert!(data.is_ok());
    assert_eq!(770, data.unwrap().len());
}

#[test]
fn new_fails_with_path_not_found() {
    match Source::dir("no_path_".to_string(), PathKind::Missing) {
        Err(ConfigError::NotADirectory(p)) => assert_eq!("no_path_", p),
        other => panic!("{:?}", other),
    }
}

#[test]
fn new_fails_with_file() {
    let path = "resources/test/classpath/user/HelloWorld.jar".to_string();
    assert!(matches!(Source::dir(path, PathKind::File), Err(ConfigError::NotADirectory(_))));
}

#[test]
fn new_archive_fails_with_dir() {
    let path = USER.to_string();
    assert!(matches!(Source::archive(path.clone(), PathKind::Directory), Err(ConfigError::NotAFile(_))));
    assert!(matches!(Source::archive(path, PathKind::Missing), Err(ConfigError::NotAFile(_))));
    assert!(Source::archive("/a/b.jar".to_string(), PathKind::File).is_ok());
}

#[test]
fn read_class_not_found() {
    let entry = dir_source(USER);
    let r = entry.settle("hello", vec![Err(ProbeFailure::NotFound)]).unwrap();
    let e = r.unwrap_err();
    assert_eq!(ProbeFailure::NotFound, e.kind);
    assert_eq!(format!("({})", USER), e.location);
    assert_eq!(format!("not found class: hello in path: ({})", USER), e.message());
}

#[test]
fn unreadable_file_is_reported() {
    let entry = dir_source(USER);
    let e = entry.settle("a.B", vec![Err(ProbeFailure::Unreadable)]).unwrap().unwrap_err();
    assert_eq!(ProbeFailure::Unreadable, e.kind);
    assert!(e.message().starts_with("cannot read class: a.B"));
}

#[test]
fn composite_first_match_wins() {
    let (src, skipped) = Source::from_segments(
        vec!["/a".to_string(), "/b".to_string()],
        vec![Ok(dir_source("/a")), Ok(dir_source("/b"))],
    );
    assert!(skipped.is_empty());
    let plan = src.plan("p.Q");
    assert_eq!(vec!["/a/p/Q.class", "/b/p/Q.class"], plan.iter().map(file_probe).collect::<Vec<_>>());
    let a = vec![1u8, 2, 3];
    let b = vec![9u8, 9];
    assert_eq!(a, src.settle("p.Q", vec![Ok(a.clone())]).unwrap().unwrap());
    assert_eq!(a, src.settle("p.Q", vec![Ok(a.clone()), Ok(b.clone())]).unwrap().unwrap());
    assert_eq!(b, src.settle("p.Q", vec![Err(ProbeFailure::NotFound), Ok(b.clone())]).unwrap().unwrap());
    assert!(src.settle("p.Q", vec![Err(ProbeFailure::Unreadable)]).is_none());
    let e = src
        .settle("p.Q", vec![Err(ProbeFailure::Unreadable), Err(ProbeFailure::NotFound)])
        .unwrap()
        .unwrap_err();
    assert_eq!(ProbeFailure::NotFound, e.kind);
    assert_eq!("(/a):(/b)", e.location);
}

#[test]
fn empty_composite_fails_at_once() {
    let src = Source::from_listing("/nothing", Some(vec![])).unwrap();
    assert!(src.plan("a.B").is_empty());
    let e = src.settle("a.B", vec![]).unwrap().unwrap_err();
    assert_eq!(ProbeFailure::NotFound, e.kind);
    assert_eq!("", e.location);
}

#[test]
fn wildcard_listing_keeps_archives() {
    let names = vec!["rt.jar", "readme.txt", "jce.jar", "jar"].into_iter().map(String::from).collect();
    let src = Source::from_listing("/jre/lib/", Some(names)).unwrap();
    assert_eq!("(/jre/lib/rt.jar):(/jre/lib/jce.jar)", src.describe());
    let plan = src.plan("java.lang.Object");
    assert_eq!(2, plan.len());
    match &plan[1] {
        Probe::Entry { archive, entry } => {
            assert_eq!("/jre/lib/jce.jar", archive);
            assert_eq!("java/lang/Object.class", entry);
        }
        other => panic!("{:?}", other),
    }
    assert!(matches!(Source::from_listing("/gone", None), Err(ConfigError::Unlistable(p)) if p == "/gone"));
}

#[test]
fn bad_segments_are_skipped() {
    let (src, skipped) = Source::from_segments(
        vec!["/a".to_string(), "/missing".to_string(), "/c.jar".to_string()],
        vec![
            Ok(dir_source("/a")),
            Err(ConfigError::NotADirectory("/missing".to_string())),
            Source::archive("/c.jar".to_string(), PathKind::File),
        ],
    );
    assert_eq!(1, skipped.len());
    assert_eq!("/missing", skipped[0].segment);
    assert!(matches!(&skipped[0].reason, ConfigError::NotADirectory(p) if p == "/missing"));
    assert_eq!("(/a):(/c.jar)", src.describe());
    assert_eq!(2, src.leaf_count());
    assert!(matches!(src, Source::Composite(ref v) if matches!(v[1], Leaf::Archive(_))));
}

#[test]
fn classpath_user_source_resolves() {
    let (boot, ext) = empty_system();
    let cp = Classpath::new(boot, ext, dir_source(USER));
    let plan = cp.plan("X");
    assert_eq!(1, plan.len());
    assert_eq!(format!("{}/X.class", USER), file_probe(&plan[0]));
    let found = cp.settle("X", vec![Ok(vec![1, 2, 3])]).unwrap().unwrap();
    assert_eq!(vec![1, 2, 3], found);
    let e = cp.settle("Nope", vec![Err(ProbeFailure::NotFound)]).unwrap().unwrap_err();
    assert_eq!(ProbeFailure::NotFound, e.kind);
    assert!(e.message().contains(USER));
    assert_eq!(format!("({})", USER), cp.describe());
}

#[test]
fn classpath_tiers_in_order() {
    let boot = Source::from_listing("/jre/lib", Some(vec!["rt.jar".to_string()])).unwrap();
    let ext = Source::from_listing("/jre/lib/ext", Some(vec!["x.jar".to_string()])).unwrap();
    let cp = Classpath::new(boot, ext, dir_source("/u"));
    let plan = cp.plan("a.B");
    assert_eq!(3, plan.len());
    assert!(matches!(&plan[0], Probe::Entry { archive, .. } if archive == "/jre/lib/rt.jar"));
    assert!(matches!(&plan[1], Probe::Entry { archive, .. } if archive == "/jre/lib/ext/x.jar"));
    assert_eq!("/u/a/B.class", file_probe(&plan[2]));
    let boot_bytes = vec![1u8];
    let user_bytes = vec![2u8];
    let r = cp.settle("a.B", vec![Ok(boot_bytes.clone()), Ok(vec![3]), Ok(user_bytes.clone())]);
    assert_eq!(boot_bytes, r.unwrap().unwrap());
    assert!(cp.settle("a.B", vec![Err(ProbeFailure::NotFound), Err(ProbeFailure::NotFound)]).is_none());
    let r = cp.settle("a.B", vec![Err(ProbeFailure::NotFound), Err(ProbeFailure::NotFound), Ok(user_bytes.clone())]);
    assert_eq!(user_bytes, r.unwrap().unwrap());
    let e = cp
        .settle("a.B", vec![Err(ProbeFailure::Unreadable), Err(ProbeFailure::NotFound), Err(ProbeFailure::Unreadable)])
        .unwrap()
        .unwrap_err();
    assert_eq!(ProbeFailure::Unreadable, e.kind);
    assert_eq!("(/u)", e.location);
    assert_eq!("a.B", e.class_name);
}

#[test]
fn runtime_home_choice() {
    let c = Classpath::runtime_home_candidates("/opt/jre", Some("/usr/java".to_string()));
    assert_eq!(vec!["/opt/jre", "./jre", "/usr/java/jre"], c);
    assert_eq!(2, Classpath::runtime_home_candidates("", None).len());
    let home = Classpath::choose_runtime_home(c.clone(), vec![false, true, true]).unwrap();
    assert_eq!("./jre", home);
    let home = Classpath::choose_runtime_home(c.clone(), vec![false, false, true]).unwrap();
    assert_eq!("/usr/java/jre", home);
    assert!(matches!(
        Classpath::choose_runtime_home(c, vec![false, false, false]),
        Err(ConfigError::NoRuntimeHome)
    ));
    assert_eq!(
        ("/opt/jre/lib".to_string(), "/opt/jre/lib/ext".to_string()),
        Classpath::system_dirs("/opt/jre")
    );
}

#[test]
fn blank_user_path_is_current_dir() {
    assert_eq!(".", Classpath::user_path("   "));
    assert_eq!(".", Classpath::user_path(""));
    assert_eq!("lib/a.jar:cls", Classpath::user_path("lib/a.jar:cls"));
}

#[test]
fn first_match_wins_in_every_order() {
    let roots = ["/a", "/b", "/c"];
    let orders = [[0, 1, 2], [0, 2, 1], [1, 0, 2], [1, 2, 0], [2, 0, 1], [2, 1, 0]];
    for order in orders.iter() {
        let segs: Vec<String> = order.iter().map(|&k| roots[k].to_string()).collect();
        let built = order.iter().map(|&k| Ok(dir_source(roots[k]))).collect();
        let (src, _) = Source::from_segments(segs, built);
        let outs: Vec<_> = order.iter().map(|&k| Ok(vec![k as u8; k + 1])).collect();
        let first = order[0];
        assert_eq!(vec![first as u8; first + 1], src.settle("r.S", outs).unwrap().unwrap());
        let mut outs: Vec<_> = vec![Err(ProbeFailure::NotFound)];
        outs.extend(order[1..].iter().map(|&k| Ok(vec![k as u8; k + 1])));
        let second = order[1];
        assert_eq!(vec![second as u8; second + 1], src.settle("r.S", outs).unwrap().unwrap());
    }
}

#[test]
fn unicode_white_space_is_trimmed() {
    match plan_entry("\u{3000}/a/b\t\u{2003}") {
        EntryPlan::Directory(d) => assert_eq!("/a/b", d),
        other => panic!("{:?}", other),
    }
    assert_eq!(".", Classpath::user_path("\u{a0}\n"));
    assert_eq!("x", Classpath::user_path("x"));
}

#[test]
fn first_existing_home_wins() {
    let c = vec!["/x".to_string(), "./jre".to_string(), "/h/jre".to_string()];
    assert_eq!("/x", Classpath::choose_runtime_home(c.clone(), vec![true, true, true]).unwrap());
    assert_eq!("/h/jre", Classpath::choose_runtime_home(c, vec![false, false, true]).unwrap());
}
