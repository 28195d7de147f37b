use spawn::which::{Search, Step};
use spawn::{SpawnError, SpawnWhich, Spawner, Which, WhichError};
use std::borrow::Cow;

fn run(cmd: &str, path: Option<&[u8]>, files: &[&str]) -> (Result<String, WhichError>, Vec<String>) {
    let mut asked: Vec<String> = Vec::new();
    let mut search: Search = SpawnWhich::search(cmd);
    loop {
        match search.step() {
            Step::Probe(file) => {
                let there = files.contains(&file.as_str());
                asked.push(file);
                search = search.probed(there);
            }
            Step::ReadPath => {
                asked.push("PATH".to_owned());
                search = search.with_path(path.map(|p| p.to_vec()));
            }
            Step::Done(res) => return (res, asked),
        }
    }
}

#[test]
fn path_of_its_own_is_taken_as_it_stands() {
    let (res, asked) = run("/opt/tool", None, &["/opt/tool"]);
    assert_eq!(res.unwrap(), "/opt/tool");
    assert_eq!(asked, ["/opt/tool"]);
}

#[test]
fn path_that_is_missing_is_looked_for_in_the_directories() {
    let (res, asked) = run("bin/tool", Some(b"/a:/b"), &["/b/bin/tool"]);
    assert_eq!(res.unwrap(), "/b/bin/tool");
    assert_eq!(asked, ["bin/tool", "PATH", "/a/bin/tool", "/b/bin/tool"]);
}

#[test]
fn working_directory_is_not_searched() {
    let (res, asked) = run("tool", Some(b"/usr/bin"), &["tool", "/usr/bin/tool"]);
    assert_eq!(res.unwrap(), "/usr/bin/tool");
    assert_eq!(asked, ["PATH", "/usr/bin/tool"]);
    let (res, _) = run("tool", Some(b"/usr/bin"), &["tool"]);
    assert!(matches!(res, Err(WhichError::NotFound(cmd)) if cmd == "tool"));
    assert_eq!(run("./tool", None, &["./tool"]).0.unwrap(), "./tool");
}

#[test]
fn first_directory_wins() {
    let (res, asked) = run("tool", Some(b"/a:/b:/c"), &["/b/tool", "/c/tool"]);
    assert_eq!(res.unwrap(), "/b/tool");
    assert_eq!(asked, ["PATH", "/a/tool", "/b/tool"]);
}

#[test]
fn empty_directory_is_the_root() {
    let (res, _) = run("tool", Some(b"/a::/c"), &["/tool"]);
    assert_eq!(res.unwrap(), "/tool");
}

#[test]
fn missing_program_is_not_found() {
    let (res, asked) = run("tool", Some(b"/a:/b"), &[]);
    assert!(matches!(res, Err(WhichError::NotFound(cmd)) if cmd == "tool"));
    assert_eq!(asked, ["PATH", "/a/tool", "/b/tool"]);
}

#[test]
fn missing_path_is_an_error() {
    assert!(matches!(run("tool", None, &[]).0, Err(WhichError::Path)));
    assert!(matches!(run("tool", Some(&[0xff]), &[]).0, Err(WhichError::Path)));
}

struct Fixed;

impl Which for Fixed {
    fn which(cmd: &str) -> Result<Cow<'_, str>, WhichError> {
        match cmd {
            "same" => Ok(Cow::Borrowed(cmd)),
            "other" => Ok(Cow::Owned("/fixed/other".to_owned())),
            _ => Err(WhichError::NotFound(cmd.to_owned())),
        }
    }
}

fn program(spawner: Spawner) -> String {
    spawner.spawn(spawn::Pipes { input: None, output: None, error: None }, &[]).unwrap().program
}

#[test]
fn resolver_of_ones_own_is_asked() {
    assert_eq!(program(Spawner::which::<Fixed>("same").unwrap()), "same");
    assert_eq!(program(Spawner::which::<Fixed>("other").unwrap()), "/fixed/other");
    assert!(matches!(
        Spawner::which::<Fixed>("none"),
        Err(SpawnError::Path(WhichError::NotFound(_)))
    ));
}

#[test]
fn program_that_was_not_found_is_not_spawned() {
    assert!(matches!(
        Spawner::new("none", Err(WhichError::Path)),
        Err(SpawnError::Path(WhichError::Path))
    ));
}
