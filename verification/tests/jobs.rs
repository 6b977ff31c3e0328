use serde_json::Value;
use vpm_shop::codec::{encode, parse, pretty};
use vpm_shop::jobs::{
    Edit, Job, JobAction, JobEvent, JobStage, Target, advance_job, start_job,
};
use vpm_shop::registry::version_exists;
use vpm_shop::replies::Reply;
use vpm_shop::repos::{RepoCategoryUpdate, ReposUpdate};

const HOST: &str = "https://x.y";

const REGISTRY: &str = r#"{"packages": {"p": {"versions": {
    "1.0.0": {"url": "https://x.y/C/p/p-1.0.0.zip", "vpmDependencies": {}, "zipSHA256": "00"},
    "2.0.0": {"url": "https://x.y/C/p/p-2.0.0.zip"}
}}}}"#;

fn value(text: &str) -> Value {
    serde_json::from_str(text).unwrap()
}

fn target(version: &str) -> Target {
    Target { name: "p".to_string(), version: version.to_string() }
}

fn registry() -> JobEvent {
    JobEvent::Registry(REGISTRY.to_string())
}

fn report(text: &str) -> JobEvent {
    JobEvent::Report(text.to_string())
}

fn answered(step: (JobStage, JobAction)) -> Reply {
    match step {
        (JobStage::Over, JobAction::Answer(reply)) => reply,
        _ => panic!("not answered"),
    }
}

fn failed(step: (JobStage, JobAction)) -> String {
    let reply = answered(step);
    assert_eq!(reply.status, 404);
    let body = encode(reply.body);
    assert_eq!(body["ok"], Value::Bool(false));
    body["error"].as_str().unwrap().to_string()
}

fn done(step: (JobStage, JobAction)) -> String {
    let reply = answered(step);
    assert_eq!(reply.status, 200);
    let body = encode(reply.body);
    assert_eq!(body["ok"], Value::Bool(true));
    body["message"].as_str().unwrap().to_string()
}

fn dependencies() -> Edit {
    Edit::Dependencies {
        dependencies: parse("{\"a\": \"1\"}").unwrap(),
        vpm_dependencies: parse("{\"b\": \"2\"}").unwrap(),
    }
}

fn conversion() -> Edit {
    Edit::Conversion { path: "Assets/F".to_string() }
}

#[test]
fn a_version_is_deleted_step_by_step() {
    let (st, a) = start_job(Job::Delete(target("1.0.0")));
    assert!(matches!(a, JobAction::ReadRegistry));
    let (st, a) = advance_job(HOST, st, registry());
    match a {
        JobAction::RemoveFile(file) => assert_eq!(file, "C/p/p-1.0.0.zip"),
        _ => panic!("not removed"),
    }
    let (st, a) = advance_job(HOST, st, JobEvent::Done);
    match a {
        JobAction::StoreRegistry(after) => {
            let text = pretty(after);
            assert!(!version_exists(&text, "p", "1.0.0").unwrap());
            assert!(version_exists(&text, "p", "2.0.0").unwrap());
        }
        _ => panic!("not stored"),
    }
    let (st, a) = advance_job(HOST, st, JobEvent::Done);
    assert!(matches!(a, JobAction::Regenerate));
    let (st, a) = advance_job(HOST, st, report("regen"));
    assert!(matches!(a, JobAction::ValidateListing));
    assert_eq!(done(advance_job(HOST, st, report("fine"))), "removed p@1.0.0 (regen)");
}

#[test]
fn a_version_that_is_not_listed_is_not_deleted() {
    let (st, _) = start_job(Job::Delete(target("3.0.0")));
    assert_eq!(failed(advance_job(HOST, st, registry())), "version '3.0.0' not found");
}

/// Brings a change to the point where the checksum was computed.
fn hashed(edit: Edit, manifest: &str) -> (JobStage, Value, Option<String>) {
    let (st, a) = start_job(Job::Change(target("1.0.0"), edit));
    assert!(matches!(a, JobAction::ReadRegistry));
    let (st, a) = advance_job(HOST, st, registry());
    match a {
        JobAction::ReadManifest(file) => assert_eq!(file, "C/p/p-1.0.0.zip"),
        _ => panic!("not opened"),
    }
    let (st, a) = advance_job(HOST, st, JobEvent::Manifest(manifest.as_bytes().to_vec()));
    let (built, without) = match a {
        JobAction::Rebuild { file, manifest, without } => {
            assert_eq!(file, "C/p/p-1.0.0.zip");
            (encode(manifest), without)
        }
        _ => panic!("not rebuilt"),
    };
    let (st, a) = advance_job(HOST, st, JobEvent::Done);
    match a {
        JobAction::Hash(file) => assert_eq!(file, "C/p/p-1.0.0.zip"),
        _ => panic!("not hashed"),
    }
    let sum = "0123456789abcdef0123".to_string();
    let (st, a) = advance_job(HOST, st, JobEvent::Checksum(sum));
    assert!(matches!(a, JobAction::ReadRegistry));
    (st, built, without)
}

#[test]
fn dependencies_are_edited_step_by_step() {
    let (st, built, without) = hashed(dependencies(), "{\"name\": \"p\"}");
    assert_eq!(
        built,
        value(r#"{"name": "p", "dependencies": {"a": "1"}, "vpmDependencies": {"b": "2"}}"#)
    );
    assert_eq!(without, None);
    let (st, a) = advance_job(HOST, st, registry());
    match a {
        JobAction::StoreRegistry(after) => {
            let entry = encode(after)["packages"]["p"]["versions"]["1.0.0"].clone();
            assert_eq!(entry["dependencies"], value("{\"a\": \"1\"}"));
            assert_eq!(entry["vpmDependencies"], value("{\"b\": \"2\"}"));
            assert_eq!(entry["zipSHA256"], value("\"0123456789abcdef0123\""));
        }
        _ => panic!("not stored"),
    }
    let (st, _) = advance_job(HOST, st, JobEvent::Done);
    let (st, a) = advance_job(HOST, st, report("regen"));
    assert!(matches!(a, JobAction::ValidateListing));
    assert_eq!(
        done(advance_job(HOST, st, report("fine"))),
        "updated dependencies for p@1.0.0 (zipSHA256: 0123456789abcdef)"
    );
}

#[test]
fn folders_are_converted_step_by_step() {
    let (st, built, without) = hashed(conversion(), "not json");
    assert_eq!(built, value("{}"));
    assert_eq!(without, Some("Assets/F".to_string()));
    let (st, a) = advance_job(HOST, st, registry());
    match a {
        JobAction::StoreRegistry(after) => {
            let entry = encode(after)["packages"]["p"]["versions"]["1.0.0"].clone();
            assert_eq!(entry["vpmDependencies"], value("{\"F\": \"1.0.0\"}"));
            assert_eq!(entry["zipSHA256"], value("\"0123456789abcdef0123\""));
        }
        _ => panic!("not stored"),
    }
    let (st, _) = advance_job(HOST, st, JobEvent::Done);
    let (st, _) = advance_job(HOST, st, report("regen"));
    assert_eq!(
        done(advance_job(HOST, st, report("fine"))),
        "converted folder 'Assets/F' to VPM dependency 'F'"
    );
}

#[test]
fn failures_of_jobs_are_answered() {
    let (st, _, _) = hashed(conversion(), "{}");
    let (st, _) = advance_job(HOST, st, registry());
    let (st, _) = advance_job(HOST, st, JobEvent::Done);
    let (st, _) = advance_job(HOST, st, report("regen"));
    let failure = JobEvent::Failed("exit 1".to_string());
    assert_eq!(failed(advance_job(HOST, st, failure)), "validation failed: exit 1");
    let (st, _) = start_job(Job::Delete(target("1.0.0")));
    let failure = JobEvent::Failed("no disk".to_string());
    assert_eq!(failed(advance_job(HOST, st, failure)), "no disk");
    let (st, _) = start_job(Job::Delete(target("1.0.0")));
    failed(advance_job(HOST, st, JobEvent::Done));
}

#[test]
fn changes_need_a_listed_version_and_a_manifest() {
    let (st, _) = start_job(Job::Change(target("3.0.0"), dependencies()));
    assert_eq!(
        failed(advance_job(HOST, st, registry())),
        "version '3.0.0' not found for 'p'"
    );
    let (st, _) = start_job(Job::Change(target("1.0.0"), dependencies()));
    let (st, _) = advance_job(HOST, st, registry());
    let bad = JobEvent::Manifest(b"{".to_vec());
    assert_eq!(
        failed(advance_job(HOST, st, bad)),
        "EOF while parsing an object at line 1 column 1"
    );
    let (st, _, _) = hashed(dependencies(), "{}");
    let gone = JobEvent::Registry("{\"packages\": {}}".to_string());
    assert_eq!(failed(advance_job(HOST, st, gone)), "version entry missing for p@1.0.0");
}

#[test]
fn listings_are_renamed_step_by_step() {
    let update = || ReposUpdate {
        master_name: Some("N".to_string()),
        master_id: None,
        categories: vec![RepoCategoryUpdate {
            name: "Props".to_string(),
            repo_name: None,
            repo_id: Some("x.y".to_string()),
        }],
    };
    let categories = || vec!["Props".to_string()];
    let (st, a) = start_job(Job::SaveRepos("/r.conf".to_string(), categories(), update()));
    assert!(matches!(a, JobAction::ReadConf));
    let (st, a) = advance_job(HOST, st, JobEvent::Conf(None));
    match a {
        JobAction::StoreConf(after) => {
            let after = encode(after);
            assert_eq!(after["master_name"], value("\"N\""));
            assert_eq!(after["categories"][0]["name"], value("\"Props\""));
            assert_eq!(after["categories"][0]["repo_id"], value("\"x.y\""));
        }
        _ => panic!("not stored"),
    }
    let (st, a) = advance_job(HOST, st, JobEvent::Done);
    assert!(matches!(a, JobAction::Regenerate));
    assert_eq!(
        done(advance_job(HOST, st, report("regen"))),
        "Saved repos.conf and regenerated category repos.\nregen"
    );
    let (st, _) = start_job(Job::SaveRepos("/r.conf".to_string(), categories(), update()));
    assert_eq!(
        failed(advance_job(HOST, st, JobEvent::Conf(Some("{}".to_string())))),
        "repos.conf has no 'categories' array"
    );
}
