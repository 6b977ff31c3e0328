//! The jobs of the shop besides uploads: deleting a version, editing its dependencies,
//! turning a folder of it into a dependency, and renaming the listings.
//!
//! As an upload, a job goes step by step. Each step ends with an action, for the
//! program to carry out, and the next step starts with what came of it.

use vstd::prelude::*;
use vstd::string::*;

use crate::codec::{json_bytes, json_text};
use crate::edits::{
    can_convert, can_reach, conversion, conversion_note, conversion_text, deletion_note,
    deletion_text, dependencies_note, dependencies_text, edit_manifest, entry_of, folder_name,
    folder_of, law_conversion, law_deletion, law_dependency_edit,
    law_listed_versions_can_be_deleted, manifest_edited, manifest_or_empty, manifest_read,
    only_entry_changed, run_convert_to_vpm_dep, run_delete_version, run_set_deps, stored_conversion,
    stored_deletion, stored_dependencies,
};
use crate::error::{Fault, ShopError};
use crate::json::{Json, JsonView, member};
use crate::registry::{find_zip, law_listed_files_are_found, lists, package, stored_file, versions};
use crate::replies::{
    Reply, ReplyView, err_response, law_verdicts_say_how_it_went, message_response, verdict,
};
use crate::repos::{
    ReposUpdate, UpdateView, conf_of, empty_conf, is_given, is_shown, law_saved_conf_is_read,
    law_saved_listing_is_shown, law_updates_are_refused_for_a_reason, run_repos_save, saved_note,
    saved_text, stored_update,
};
use crate::text::{cat2, lemma_pieces_nonempty, texts};
use crate::upload::fault_text;
use crate::urls::file_of_address;


verus! {

// ---------------------------------------------------------------------------
// The parts of a job
// ---------------------------------------------------------------------------

/// A change to a listed version for which its package file is built anew.
#[derive(Debug)]
pub enum Edit {
    /// Give it other dependencies.
    Dependencies { dependencies: Json, vpm_dependencies: Json },
    /// Take this folder out, and have the version depend on it.
    Conversion { path: String },
}

/// What a change says.
pub enum EditView {
    Dependencies { dependencies: JsonView, vpm_dependencies: JsonView },
    Conversion { path: Seq<char> },
}

impl View for Edit {
    type V = EditView;

    open spec fn view(&self) -> EditView {
        match self {
            Edit::Dependencies { dependencies, vpm_dependencies } => EditView::Dependencies {
                dependencies: dependencies@,
                vpm_dependencies: vpm_dependencies@,
            },
            Edit::Conversion { path } => EditView::Conversion { path: path@ },
        }
    }
}

/// A version of a package.
#[derive(Debug)]
pub struct Target {
    pub name: String,
    pub version: String,
}

/// What a version of a package says.
pub struct TargetView {
    pub name: Seq<char>,
    pub version: Seq<char>,
}

impl View for Target {
    type V = TargetView;

    open spec fn view(&self) -> TargetView {
        TargetView { name: self.name@, version: self.version@ }
    }
}

/// A job.
#[derive(Debug)]
pub enum Job {
    Delete(Target),
    Change(Target, Edit),
    /// Rename the listings, in `repos.conf` at this path, of a shop with these
    /// categories.
    SaveRepos(String, Vec<String>, ReposUpdate),
}

/// What a job says.
pub enum JobView {
    Delete(TargetView),
    Change(TargetView, EditView),
    SaveRepos(Seq<char>, Seq<Seq<char>>, UpdateView),
}

impl View for Job {
    type V = JobView;

    open spec fn view(&self) -> JobView {
        match self {
            Job::Delete(t) => JobView::Delete(t@),
            Job::Change(t, e) => JobView::Change(t@, e@),
            Job::SaveRepos(p, n, u) => JobView::SaveRepos(p@, texts(n@), u@),
        }
    }
}

/// What is said of a job once the listings are generated.
#[derive(Debug)]
pub enum Ending {
    Deleted(Target),
    Edited(String),
    Converted(String),
    ReposSaved,
}

/// What an ending says.
pub enum EndingView {
    Deleted(TargetView),
    Edited(Seq<char>),
    Converted(Seq<char>),
    ReposSaved,
}

impl View for Ending {
    type V = EndingView;

    open spec fn view(&self) -> EndingView {
        match self {
            Ending::Deleted(t) => EndingView::Deleted(t@),
            Ending::Edited(t) => EndingView::Edited(t@),
            Ending::Converted(t) => EndingView::Converted(t@),
            Ending::ReposSaved => EndingView::ReposSaved,
        }
    }
}

/// How far a job has come.
#[derive(Debug)]
pub enum JobStage {
    /// The registry is read, for the version to delete.
    Deleting(Target),
    /// The file of the deleted version is removed.
    Removing(Target, Json),
    /// The registry is read, for the file of the version.
    Finding(Target, Edit),
    /// The manifest in the file is read.
    Opening(Target, Edit, String),
    /// The file is built anew.
    Rebuilding(Target, Edit, String),
    /// The checksum of the file is computed.
    Hashing(Target, Edit),
    /// The registry is read, for the entry of the version.
    Entering(Target, Edit, String),
    /// `repos.conf` is read.
    Renaming(String, Vec<String>, ReposUpdate),
    /// The registry, or `repos.conf`, is stored.
    Storing(Ending),
    /// The category listings are generated anew.
    Regenerating(Ending),
    /// The published listing is validated; after a conversion where the flag is set.
    Checking(String, bool),
    /// The job has been answered.
    Over,
}

/// What a stage says.
pub enum JobStageView {
    Deleting(TargetView),
    Removing(TargetView, JsonView),
    Finding(TargetView, EditView),
    Opening(TargetView, EditView, Seq<char>),
    Rebuilding(TargetView, EditView, Seq<char>),
    Hashing(TargetView, EditView),
    Entering(TargetView, EditView, Seq<char>),
    Renaming(Seq<char>, Seq<Seq<char>>, UpdateView),
    Storing(EndingView),
    Regenerating(EndingView),
    Checking(Seq<char>, bool),
    Over,
}

impl View for JobStage {
    type V = JobStageView;

    open spec fn view(&self) -> JobStageView {
        match self {
            JobStage::Deleting(t) => JobStageView::Deleting(t@),
            JobStage::Removing(t, j) => JobStageView::Removing(t@, j@),
            JobStage::Finding(t, e) => JobStageView::Finding(t@, e@),
            JobStage::Opening(t, e, f) => JobStageView::Opening(t@, e@, f@),
            JobStage::Rebuilding(t, e, f) => JobStageView::Rebuilding(t@, e@, f@),
            JobStage::Hashing(t, e) => JobStageView::Hashing(t@, e@),
            JobStage::Entering(t, e, s) => JobStageView::Entering(t@, e@, s@),
            JobStage::Renaming(p, n, u) => JobStageView::Renaming(p@, texts(n@), u@),
            JobStage::Storing(e) => JobStageView::Storing(e@),
            JobStage::Regenerating(e) => JobStageView::Regenerating(e@),
            JobStage::Checking(t, c) => JobStageView::Checking(t@, *c),
            JobStage::Over => JobStageView::Over,
        }
    }
}

/// What the program has to do next. Files are given from the directory that holds the
/// categories on.
#[derive(Debug)]
pub enum JobAction {
    /// Read the text of the registry.
    ReadRegistry,
    /// Remove this file, which has to exist.
    RemoveFile(String),
    /// Read the manifest in this package file, which has to exist.
    ReadManifest(String),
    /// Build this package file anew with this manifest; without the folder, where one
    /// is named.
    Rebuild { file: String, manifest: Json, without: Option<String> },
    /// Compute the checksum of this file.
    Hash(String),
    /// Store the registry.
    StoreRegistry(Json),
    /// Read the text of `repos.conf`.
    ReadConf,
    /// Store `repos.conf`.
    StoreConf(Json),
    /// Generate the category listings anew.
    Regenerate,
    /// Have the published listing validated.
    ValidateListing,
    /// Answer.
    Answer(Reply),
}

/// What an action says.
pub enum JobActionView {
    ReadRegistry,
    RemoveFile(Seq<char>),
    ReadManifest(Seq<char>),
    Rebuild { file: Seq<char>, manifest: JsonView, without: Option<Seq<char>> },
    Hash(Seq<char>),
    StoreRegistry(JsonView),
    ReadConf,
    StoreConf(JsonView),
    Regenerate,
    ValidateListing,
    Answer(ReplyView),
}

impl View for JobAction {
    type V = JobActionView;

    open spec fn view(&self) -> JobActionView {
        match self {
            JobAction::ReadRegistry => JobActionView::ReadRegistry,
            JobAction::RemoveFile(f) => JobActionView::RemoveFile(f@),
            JobAction::ReadManifest(f) => JobActionView::ReadManifest(f@),
            JobAction::Rebuild { file, manifest, without } => JobActionView::Rebuild {
                file: file@,
                manifest: manifest@,
                without: match without {
                    Some(p) => Some(p@),
                    None => None,
                },
            },
            JobAction::Hash(f) => JobActionView::Hash(f@),
            JobAction::StoreRegistry(j) => JobActionView::StoreRegistry(j@),
            JobAction::ReadConf => JobActionView::ReadConf,
            JobAction::StoreConf(j) => JobActionView::StoreConf(j@),
            JobAction::Regenerate => JobActionView::Regenerate,
            JobAction::ValidateListing => JobActionView::ValidateListing,
            JobAction::Answer(r) => JobActionView::Answer(r@),
        }
    }
}

/// What came of an action.
#[derive(Debug)]
pub enum JobEvent {
    /// It is done.
    Done,
    /// The text of the registry.
    Registry(String),
    /// The bytes of the manifest.
    Manifest(Vec<u8>),
    /// The checksum.
    Checksum(String),
    /// The text of `repos.conf`, if there is such a file.
    Conf(Option<String>),
    /// What a program that succeeded has printed.
    Report(String),
    /// It failed, for this reason.
    Failed(String),
}

/// What an event says.
pub enum JobEventView {
    Done,
    Registry(Seq<char>),
    Manifest(Seq<u8>),
    Checksum(Seq<char>),
    Conf(Option<Seq<char>>),
    Report(Seq<char>),
    Failed(Seq<char>),
}

impl View for JobEvent {
    type V = JobEventView;

    open spec fn view(&self) -> JobEventView {
        match self {
            JobEvent::Done => JobEventView::Done,
            JobEvent::Registry(t) => JobEventView::Registry(t@),
            JobEvent::Manifest(b) => JobEventView::Manifest(b@),
            JobEvent::Checksum(t) => JobEventView::Checksum(t@),
            JobEvent::Conf(t) => JobEventView::Conf(
                match t {
                    Some(s) => Some(s@),
                    None => None,
                },
            ),
            JobEvent::Report(t) => JobEventView::Report(t@),
            JobEvent::Failed(t) => JobEventView::Failed(t@),
        }
    }
}

// ---------------------------------------------------------------------------
// The steps
// ---------------------------------------------------------------------------

/// The end of a job that failed.
pub open spec fn job_failed(text: Seq<char>) -> (JobStageView, JobActionView) {
    (
        JobStageView::Over,
        JobActionView::Answer(ReplyView { status: 404, body: verdict(false, "error"@, text) }),
    )
}

/// The end of a job that was done.
pub open spec fn job_done(text: Seq<char>) -> (JobStageView, JobActionView) {
    (
        JobStageView::Over,
        JobActionView::Answer(ReplyView { status: 200, body: verdict(true, "message"@, text) }),
    )
}

/// The first step.
pub open spec fn first_job_step(job: JobView) -> (JobStageView, JobActionView) {
    match job {
        JobView::Delete(t) => (JobStageView::Deleting(t), JobActionView::ReadRegistry),
        JobView::Change(t, e) => (JobStageView::Finding(t, e), JobActionView::ReadRegistry),
        JobView::SaveRepos(p, n, u) => (JobStageView::Renaming(p, n, u), JobActionView::ReadConf),
    }
}

/// The manifest with which the file of a version is built anew, where it had this one.
pub open spec fn new_manifest(e: EditView, bytes: Seq<u8>) -> Result<JsonView, Fault> {
    match e {
        EditView::Dependencies { dependencies, vpm_dependencies } => manifest_edited(
            bytes,
            dependencies,
            vpm_dependencies,
        ),
        EditView::Conversion { path } => Ok(manifest_read(bytes)),
    }
}

/// The folder without which the file of a version is built anew.
pub open spec fn dropped_folder(e: EditView) -> Option<Seq<char>> {
    match e {
        EditView::Dependencies { dependencies, vpm_dependencies } => None,
        EditView::Conversion { path } => Some(path),
    }
}

/// The registry after a change, where it was the one that a text holds.
pub open spec fn changed_registry(
    t: TargetView,
    e: EditView,
    checksum: Seq<char>,
    registry: Seq<char>,
) -> Result<JsonView, Fault> {
    match e {
        EditView::Dependencies { dependencies, vpm_dependencies } => stored_dependencies(
            registry,
            t.name,
            t.version,
            dependencies,
            vpm_dependencies,
            checksum,
        ),
        EditView::Conversion { path } => stored_conversion(
            registry,
            t.name,
            t.version,
            folder_name(path),
            checksum,
        ),
    }
}

/// What is said of a change.
pub open spec fn change_ending(t: TargetView, e: EditView, checksum: Seq<char>) -> EndingView {
    match e {
        EditView::Dependencies { dependencies, vpm_dependencies } => EndingView::Edited(
            dependencies_text(t.name, t.version, checksum),
        ),
        EditView::Conversion { path } => EndingView::Converted(
            conversion_text(path, folder_name(path)),
        ),
    }
}

/// The step after the listings were generated.
pub open spec fn after_regeneration(e: EndingView, regen: Seq<char>) -> (
    JobStageView,
    JobActionView,
) {
    match e {
        EndingView::Deleted(t) => (
            JobStageView::Checking(deletion_text(t.name, t.version, regen), false),
            JobActionView::ValidateListing,
        ),
        EndingView::Edited(text) => (
            JobStageView::Checking(text, false),
            JobActionView::ValidateListing,
        ),
        EndingView::Converted(text) => (
            JobStageView::Checking(text, true),
            JobActionView::ValidateListing,
        ),
        EndingView::ReposSaved => job_done(saved_text(regen)),
    }
}

/// Why a job failed, where an action of it did.
pub open spec fn failure_text(stage: JobStageView, reason: Seq<char>) -> Seq<char> {
    match stage {
        JobStageView::Checking(_, true) => "validation failed: "@ + reason,
        _ => reason,
    }
}

/// The step after an event, in a shop at this address. An event that does not come of
/// the action that the stage waits for ends the job.
pub open spec fn next_job_step(host: Seq<char>, stage: JobStageView, event: JobEventView) -> (
    JobStageView,
    JobActionView,
) {
    match (stage, event) {
        (_, JobEventView::Failed(reason)) => job_failed(failure_text(stage, reason)),
        (JobStageView::Deleting(t), JobEventView::Registry(text)) => match stored_deletion(
            text,
            host,
            t.name,
            t.version,
        ) {
            Ok((file, after)) => (
                JobStageView::Removing(t, after),
                JobActionView::RemoveFile(file),
            ),
            Err(f) => job_failed(fault_text(f)),
        },
        (JobStageView::Removing(t, after), JobEventView::Done) => (
            JobStageView::Storing(EndingView::Deleted(t)),
            JobActionView::StoreRegistry(after),
        ),
        (JobStageView::Finding(t, e), JobEventView::Registry(text)) => match stored_file(
            text,
            host,
            t.name,
            t.version,
        ) {
            Ok(file) => (JobStageView::Opening(t, e, file), JobActionView::ReadManifest(file)),
            Err(f) => job_failed(fault_text(f)),
        },
        (JobStageView::Opening(t, e, file), JobEventView::Manifest(bytes)) => match new_manifest(
            e,
            bytes,
        ) {
            Ok(manifest) => (
                JobStageView::Rebuilding(t, e, file),
                JobActionView::Rebuild { file, manifest, without: dropped_folder(e) },
            ),
            Err(f) => job_failed(fault_text(f)),
        },
        (JobStageView::Rebuilding(t, e, file), JobEventView::Done) => (
            JobStageView::Hashing(t, e),
            JobActionView::Hash(file),
        ),
        (JobStageView::Hashing(t, e), JobEventView::Checksum(sum)) => (
            JobStageView::Entering(t, e, sum),
            JobActionView::ReadRegistry,
        ),
        (JobStageView::Entering(t, e, sum), JobEventView::Registry(text)) => {
            match changed_registry(t, e, sum, text) {
                Ok(after) => (
                    JobStageView::Storing(change_ending(t, e, sum)),
                    JobActionView::StoreRegistry(after),
                ),
                Err(f) => job_failed(fault_text(f)),
            }
        },
        (JobStageView::Renaming(path, names, u), JobEventView::Conf(text)) => match stored_update(
            path,
            text,
            u,
            names,
        ) {
            Ok(after) => (
                JobStageView::Storing(EndingView::ReposSaved),
                JobActionView::StoreConf(after),
            ),
            Err(f) => job_failed(fault_text(f)),
        },
        (JobStageView::Storing(e), JobEventView::Done) => (
            JobStageView::Regenerating(e),
            JobActionView::Regenerate,
        ),
        (JobStageView::Regenerating(e), JobEventView::Report(regen)) => after_regeneration(
            e,
            regen,
        ),
        (JobStageView::Checking(text, _), JobEventView::Report(_)) => job_done(text),
        (_, _) => job_failed("the job is out of step"@),
    }
}

// ---------------------------------------------------------------------------
// Taking the steps
// ---------------------------------------------------------------------------

/// The end of a job that failed.
fn fail(text: &str) -> (r: (JobStage, JobAction))
    ensures
        (r.0@, r.1@) == job_failed(text@),
{
    (JobStage::Over, JobAction::Answer(err_response(text)))
}

/// The end of a job that was done.
fn done(text: &str) -> (r: (JobStage, JobAction))
    ensures
        (r.0@, r.1@) == job_done(text@),
{
    (JobStage::Over, JobAction::Answer(message_response(text)))
}

/// The end of a job that is refused.
fn refuse(e: ShopError) -> (r: (JobStage, JobAction))
    ensures
        (r.0@, r.1@) == job_failed(fault_text(e@)),
{
    fail(e.text())
}

/// Starts a job.
pub fn start_job(job: Job) -> (r: (JobStage, JobAction))
    ensures
        (r.0@, r.1@) == first_job_step(job@),
{
    match job {
        Job::Delete(t) => (JobStage::Deleting(t), JobAction::ReadRegistry),
        Job::Change(t, e) => (JobStage::Finding(t, e), JobAction::ReadRegistry),
        Job::SaveRepos(p, n, u) => (JobStage::Renaming(p, n, u), JobAction::ReadConf),
    }
}

/// The step in which the file of a version is built anew.
fn rebuild(t: Target, e: Edit, file: String, bytes: &Vec<u8>) -> (r: (JobStage, JobAction))
    ensures
        (r.0@, r.1@) == (match new_manifest(e@, bytes@) {
            Ok(manifest) => (
                JobStageView::Rebuilding(t@, e@, file@),
                JobActionView::Rebuild { file: file@, manifest, without: dropped_folder(e@) },
            ),
            Err(f) => job_failed(fault_text(f)),
        }),
{
    let (manifest, without) = match &e {
        Edit::Dependencies { dependencies, vpm_dependencies } => {
            let m = edit_manifest(
                bytes.as_slice(),
                dependencies.clone(),
                vpm_dependencies.clone(),
            );
            match m {
                Ok(m) => (m, None),
                Err(e) => {
                    return refuse(e);
                },
            }
        },
        Edit::Conversion { path } => (
            manifest_or_empty(bytes.as_slice()),
            Some(path.clone()),
        ),
    };
    let copy = file.clone();
    (JobStage::Rebuilding(t, e, file), JobAction::Rebuild { file: copy, manifest, without })
}

/// The step in which the entry of a version is changed.
fn enter(t: Target, e: Edit, sum: String, registry: &str) -> (r: (JobStage, JobAction))
    ensures
        (r.0@, r.1@) == (match changed_registry(t@, e@, sum@, registry@) {
            Ok(after) => (
                JobStageView::Storing(change_ending(t@, e@, sum@)),
                JobActionView::StoreRegistry(after),
            ),
            Err(f) => job_failed(fault_text(f)),
        }),
{
    let name = t.name.as_str();
    let version = t.version.as_str();
    match e {
        Edit::Dependencies { dependencies, vpm_dependencies } => {
            match run_set_deps(
                registry,
                name,
                version,
                dependencies,
                vpm_dependencies,
                sum.as_str(),
            ) {
                Ok(after) => {
                    let note = dependencies_note(name, version, sum.as_str());
                    (JobStage::Storing(Ending::Edited(note)), JobAction::StoreRegistry(after))
                },
                Err(e) => refuse(e),
            }
        },
        Edit::Conversion { path } => {
            let folder = folder_of(path.as_str());
            match run_convert_to_vpm_dep(registry, name, version, folder.as_str(), sum.as_str()) {
                Ok(after) => {
                    let note = conversion_note(path.as_str(), folder.as_str());
                    (JobStage::Storing(Ending::Converted(note)), JobAction::StoreRegistry(after))
                },
                Err(e) => refuse(e),
            }
        },
    }
}

/// The end of a job, an action of which failed.
fn fail_at(stage: &JobStage, reason: String) -> (r: (JobStage, JobAction))
    ensures
        (r.0@, r.1@) == job_failed(failure_text(stage@, reason@)),
{
    match stage {
        JobStage::Checking(_, true) => {
            let text = cat2("validation failed: ", reason.as_str());
            fail(text.as_str())
        },
        _ => fail(reason.as_str()),
    }
}

/// Takes the next step of a job, in a shop at this address.
pub fn advance_job(host: &str, stage: JobStage, event: JobEvent) -> (r: (JobStage, JobAction))
    ensures
        (r.0@, r.1@) == next_job_step(host@, stage@, event@),
{
    match (stage, event) {
        (stage, JobEvent::Failed(reason)) => fail_at(&stage, reason),
        (JobStage::Deleting(t), JobEvent::Registry(text)) => {
            match run_delete_version(text.as_str(), host, t.name.as_str(), t.version.as_str()) {
                Ok((file, after)) => (
                    JobStage::Removing(t, after),
                    JobAction::RemoveFile(file),
                ),
                Err(e) => refuse(e),
            }
        },
        (JobStage::Removing(t, after), JobEvent::Done) => (
            JobStage::Storing(Ending::Deleted(t)),
            JobAction::StoreRegistry(after),
        ),
        (JobStage::Finding(t, e), JobEvent::Registry(text)) => {
            match find_zip(text.as_str(), host, t.name.as_str(), t.version.as_str()) {
                Ok(file) => {
                    let copy = file.clone();
                    (JobStage::Opening(t, e, file), JobAction::ReadManifest(copy))
                },
                Err(e) => refuse(e),
            }
        },
        (JobStage::Opening(t, e, file), JobEvent::Manifest(bytes)) => rebuild(t, e, file, &bytes),
        (JobStage::Rebuilding(t, e, file), JobEvent::Done) => (
            JobStage::Hashing(t, e),
            JobAction::Hash(file),
        ),
        (JobStage::Hashing(t, e), JobEvent::Checksum(sum)) => (
            JobStage::Entering(t, e, sum),
            JobAction::ReadRegistry,
        ),
        (JobStage::Entering(t, e, sum), JobEvent::Registry(text)) => enter(
            t,
            e,
            sum,
            text.as_str(),
        ),
        (JobStage::Renaming(path, names, u), JobEvent::Conf(text)) => {
            let stored = match &text {
                Some(t) => run_repos_save(path.as_str(), Some(t.as_str()), &u, &names),
                None => run_repos_save(path.as_str(), None, &u, &names),
            };
            match stored {
                Ok(after) => (JobStage::Storing(Ending::ReposSaved), JobAction::StoreConf(after)),
                Err(e) => refuse(e),
            }
        },
        (JobStage::Storing(e), JobEvent::Done) => (
            JobStage::Regenerating(e),
            JobAction::Regenerate,
        ),
        (JobStage::Regenerating(e), JobEvent::Report(regen)) => match e {
            Ending::Deleted(t) => {
                let text = deletion_note(t.name.as_str(), t.version.as_str(), regen.as_str());
                (JobStage::Checking(text, false), JobAction::ValidateListing)
            },
            Ending::Edited(text) => (
                JobStage::Checking(text, false),
                JobAction::ValidateListing,
            ),
            Ending::Converted(text) => (
                JobStage::Checking(text, true),
                JobAction::ValidateListing,
            ),
            Ending::ReposSaved => {
                let text = saved_note(regen.as_str());
                done(text.as_str())
            },
        },
        (JobStage::Checking(text, _), JobEvent::Report(_)) => done(text.as_str()),
        (_, _) => fail("the job is out of step"),
    }
}

// ---------------------------------------------------------------------------
// Whole jobs
// ---------------------------------------------------------------------------

/// How far a job has come after these events, and the actions that it asked for: the
/// first one at once, and one after each event.
pub open spec fn run_job(host: Seq<char>, job: JobView, events: Seq<JobEventView>) -> (
    JobStageView,
    Seq<JobActionView>,
)
    decreases events.len(),
{
    if events.len() == 0 {
        (first_job_step(job).0, seq![first_job_step(job).1])
    } else {
        let before = run_job(host, job, events.drop_last());
        let step = next_job_step(host, before.0, events.last());
        (step.0, before.1.push(step.1))
    }
}

/// A file was built anew.
pub open spec fn is_rebuilt(actions: Seq<JobActionView>, file: Seq<char>, i: int) -> bool {
    &&& 0 <= i < actions.len()
    &&& actions[i] matches JobActionView::Rebuild { file: f, manifest: _, without: _ } && f == file
}

/// A file was built anew before this action.
pub open spec fn was_rebuilt(actions: Seq<JobActionView>, file: Seq<char>, before: int) -> bool {
    exists|j: int| j < before && #[trigger] is_rebuilt(actions, file, j)
}

/// A file that was built anew before was hashed, with this outcome.
pub open spec fn is_hashed(
    actions: Seq<JobActionView>,
    events: Seq<JobEventView>,
    checksum: Seq<char>,
    i: int,
) -> bool {
    &&& 0 <= i < events.len()
    &&& events[i] == JobEventView::Checksum(checksum)
    &&& actions[i] matches JobActionView::Hash(file) && was_rebuilt(actions, file, i)
}

/// A file that was built anew was hashed, with this outcome.
pub open spec fn was_hashed(
    actions: Seq<JobActionView>,
    events: Seq<JobEventView>,
    checksum: Seq<char>,
) -> bool {
    exists|i: int| #[trigger] is_hashed(actions, events, checksum, i)
}

/// The registry that a change stores: the entry of the version has the checksum of
/// the file that was built anew.
pub open spec fn has_new_checksum(
    actions: Seq<JobActionView>,
    events: Seq<JobEventView>,
    t: TargetView,
    after: JsonView,
) -> bool {
    member(entry_of(after, t.name, t.version), "zipSHA256"@) matches Some(JsonView::Text(sum))
        && was_hashed(actions, events, sum)
}

/// The registry that a deletion stores: the version is listed no more, and the file
/// that it led to was removed.
pub open spec fn has_lost_version(
    host: Seq<char>,
    actions: Seq<JobActionView>,
    events: Seq<JobEventView>,
    t: TargetView,
    after: JsonView,
) -> bool {
    &&& !lists(after, t.name, t.version)
    &&& events.len() >= 2
    &&& events[0] matches JobEventView::Registry(text) && actions[1]
        == JobActionView::RemoveFile(stored_file(text, host, t.name, t.version)->Ok_0)
        && events[1] is Done
}

/// The `repos.conf` that a renaming of listings stores: the one that was read, with the
/// listings renamed.
pub open spec fn has_new_names(
    events: Seq<JobEventView>,
    path: Seq<char>,
    names: Seq<Seq<char>>,
    u: UpdateView,
    after: JsonView,
) -> bool {
    &&& events.len() >= 1
    &&& events[0] matches JobEventView::Conf(text) && stored_update(path, text, u, names) == Ok::<
        JsonView,
        Fault,
    >(after)
}

/// Whether an action stores what its job is to store.
pub open spec fn stores_the_change(
    host: Seq<char>,
    job: JobView,
    action: JobActionView,
    actions: Seq<JobActionView>,
    events: Seq<JobEventView>,
) -> bool {
    match job {
        JobView::Delete(t) => action matches JobActionView::StoreRegistry(after)
            && has_lost_version(host, actions, events, t, after),
        JobView::Change(t, _) => action matches JobActionView::StoreRegistry(after)
            && has_new_checksum(actions, events, t, after),
        JobView::SaveRepos(path, names, u) => action matches JobActionView::StoreConf(after)
            && has_new_names(events, path, names, u, after),
    }
}

/// What a job changes was stored, with this action.
pub open spec fn stored_at(
    host: Seq<char>,
    job: JobView,
    actions: Seq<JobActionView>,
    events: Seq<JobEventView>,
    i: int,
) -> bool {
    &&& 0 <= i < events.len()
    &&& stores_the_change(host, job, actions[i], actions, events)
    &&& events[i] is Done
}

/// The category listings were generated anew with this action, after what a job changes
/// was stored.
pub open spec fn regenerated_at(
    host: Seq<char>,
    job: JobView,
    actions: Seq<JobActionView>,
    events: Seq<JobEventView>,
    i: int,
) -> bool {
    &&& 0 < i < events.len()
    &&& actions[i] is Regenerate
    &&& events[i] is Report
    &&& stored_at(host, job, actions, events, i - 1)
}

/// The published listing was validated with this action, after the category listings
/// were generated anew.
pub open spec fn validated_at(
    host: Seq<char>,
    job: JobView,
    actions: Seq<JobActionView>,
    events: Seq<JobEventView>,
    i: int,
) -> bool {
    &&& 0 < i < events.len()
    &&& actions[i] is ValidateListing
    &&& events[i] is Report
    &&& regenerated_at(host, job, actions, events, i - 1)
}

/// All that a job is to do was done, the last of it just now.
pub open spec fn is_complete(
    host: Seq<char>,
    job: JobView,
    actions: Seq<JobActionView>,
    events: Seq<JobEventView>,
) -> bool {
    match job {
        JobView::SaveRepos(_, _, _) => regenerated_at(
            host,
            job,
            actions,
            events,
            events.len() - 1,
        ),
        _ => validated_at(host, job, actions, events, events.len() - 1),
    }
}

/// What a stage takes for granted happened.
spec fn stage_history(
    host: Seq<char>,
    job: JobView,
    stage: JobStageView,
    actions: Seq<JobActionView>,
    events: Seq<JobEventView>,
) -> bool {
    match stage {
        JobStageView::Deleting(t) => job == JobView::Delete(t) && events.len() == 0,
        JobStageView::Removing(t, after) => {
            &&& job == JobView::Delete(t)
            &&& !lists(after, t.name, t.version)
            &&& events.len() == 1
            &&& events[0] matches JobEventView::Registry(text) && actions[1]
                == JobActionView::RemoveFile(stored_file(text, host, t.name, t.version)->Ok_0)
        },
        JobStageView::Finding(t, e) => job == JobView::Change(t, e),
        JobStageView::Opening(t, e, _) => job == JobView::Change(t, e),
        JobStageView::Rebuilding(t, e, file) => job == JobView::Change(t, e) && is_rebuilt(
            actions,
            file,
            actions.len() - 1,
        ),
        JobStageView::Hashing(t, e) => {
            &&& job == JobView::Change(t, e)
            &&& actions.last() matches JobActionView::Hash(file) && was_rebuilt(
                actions,
                file,
                actions.len() - 1,
            )
        },
        JobStageView::Entering(t, e, sum) => job == JobView::Change(t, e) && was_hashed(
            actions,
            events,
            sum,
        ),
        JobStageView::Renaming(p, n, u) => job == JobView::SaveRepos(p, n, u) && events.len() == 0,
        JobStageView::Storing(e) => {
            &&& e is ReposSaved <==> job is SaveRepos
            &&& stores_the_change(host, job, actions.last(), actions, events)
        },
        JobStageView::Regenerating(e) => {
            &&& e is ReposSaved <==> job is SaveRepos
            &&& actions.last() is Regenerate
            &&& stored_at(host, job, actions, events, events.len() - 1)
        },
        JobStageView::Checking(_, _) => {
            &&& job !is SaveRepos
            &&& actions.last() is ValidateListing
            &&& regenerated_at(host, job, actions, events, events.len() - 1)
        },
        JobStageView::Over => actions.last() matches JobActionView::Answer(r) && (r.status == 200
            ==> is_complete(host, job, actions, events)),
    }
}

/// What is stored where something is.
spec fn store_history(
    host: Seq<char>,
    job: JobView,
    actions: Seq<JobActionView>,
    events: Seq<JobEventView>,
) -> bool {
    actions.last() is StoreRegistry || actions.last() is StoreConf ==> stores_the_change(
        host,
        job,
        actions.last(),
        actions,
        events,
    )
}

/// What happened up to a stage.
spec fn job_history(
    host: Seq<char>,
    job: JobView,
    stage: JobStageView,
    actions: Seq<JobActionView>,
    events: Seq<JobEventView>,
) -> bool {
    &&& actions.len() == events.len() + 1
    &&& actions.last() is Answer ==> stage is Over
    &&& stage_history(host, job, stage, actions, events)
    &&& store_history(host, job, actions, events)
}

/// What was built anew and hashed stays so while a job goes on.
proof fn lemma_goes_on(
    acts: Seq<JobActionView>,
    head: Seq<JobEventView>,
    action: JobActionView,
    event: JobEventView,
)
    requires
        acts.len() == head.len() + 1,
    ensures
        forall|file: Seq<char>, j: int| #[trigger]
            is_rebuilt(acts, file, j) ==> is_rebuilt(acts.push(action), file, j),
        forall|sum: Seq<char>, i: int| #[trigger]
            is_hashed(acts, head, sum, i) ==> is_hashed(acts.push(action), head.push(event), sum, i),
        forall|file: Seq<char>, n: int| #[trigger]
            was_rebuilt(acts, file, n) ==> was_rebuilt(acts.push(action), file, n),
        forall|sum: Seq<char>| #[trigger]
            was_hashed(acts, head, sum) ==> was_hashed(acts.push(action), head.push(event), sum),
{
    let actions = acts.push(action);
    let events = head.push(event);
    assert forall|file: Seq<char>, j: int| #[trigger] is_rebuilt(acts, file, j) implies is_rebuilt(
        actions,
        file,
        j,
    ) by {
        assert(actions[j] == acts[j]);
    }
    assert forall|sum: Seq<char>, i: int| #[trigger] is_hashed(acts, head, sum, i) implies is_hashed(
        actions,
        events,
        sum,
        i,
    ) by {
        assert(actions[i] == acts[i]);
        assert(events[i] == head[i]);
        let file = acts[i]->Hash_0;
        let j = choose|j: int| j < i && #[trigger] is_rebuilt(acts, file, j);
        assert(is_rebuilt(actions, file, j));
    }
    assert forall|file: Seq<char>, n: int| #[trigger] was_rebuilt(acts, file, n) implies was_rebuilt(
        actions,
        file,
        n,
    ) by {
        let j = choose|j: int| j < n && #[trigger] is_rebuilt(acts, file, j);
        assert(is_rebuilt(actions, file, j));
    }
    assert forall|sum: Seq<char>| #[trigger] was_hashed(acts, head, sum) implies was_hashed(
        actions,
        events,
        sum,
    ) by {
        let i = choose|i: int| #[trigger] is_hashed(acts, head, sum, i);
        assert(is_hashed(actions, events, sum, i));
    }
}

/// What is stored stays right while a job goes on, and stored.
proof fn lemma_stays_stored(
    host: Seq<char>,
    job: JobView,
    acts: Seq<JobActionView>,
    head: Seq<JobEventView>,
    action: JobActionView,
    event: JobEventView,
)
    requires
        acts.len() == head.len() + 1,
    ensures
        forall|a: JobActionView| #[trigger]
            stores_the_change(host, job, a, acts, head) ==> stores_the_change(
                host,
                job,
                a,
                acts.push(action),
                head.push(event),
            ),
        forall|i: int| #[trigger]
            stored_at(host, job, acts, head, i) ==> stored_at(
                host,
                job,
                acts.push(action),
                head.push(event),
                i,
            ),
        forall|i: int| #[trigger]
            regenerated_at(host, job, acts, head, i) ==> regenerated_at(
                host,
                job,
                acts.push(action),
                head.push(event),
                i,
            ),
{
    let actions = acts.push(action);
    let events = head.push(event);
    lemma_goes_on(acts, head, action, event);
    assert forall|a: JobActionView| #[trigger]
        stores_the_change(host, job, a, acts, head) implies stores_the_change(
        host,
        job,
        a,
        actions,
        events,
    ) by {
        assert(head.len() > 0 ==> events[0] == head[0]);
        assert(head.len() > 1 ==> events[1] == head[1] && actions[1] == acts[1]);
    }
    assert forall|i: int| #[trigger] stored_at(host, job, acts, head, i) implies stored_at(
        host,
        job,
        actions,
        events,
        i,
    ) by {
        assert(actions[i] == acts[i] && events[i] == head[i]);
    }
    assert forall|i: int| #[trigger]
        regenerated_at(host, job, acts, head, i) implies regenerated_at(
        host,
        job,
        actions,
        events,
        i,
    ) by {
        assert(actions[i] == acts[i] && events[i] == head[i]);
    }
}

/// The registry of a change has the checksum that was entered.
proof fn lemma_checksum_entered(
    t: TargetView,
    e: EditView,
    sum: Seq<char>,
    registry: Seq<char>,
)
    requires
        changed_registry(t, e, sum, registry) is Ok,
    ensures
        member(
            entry_of(changed_registry(t, e, sum, registry)->Ok_0, t.name, t.version),
            "zipSHA256"@,
        ) == Some(JsonView::Text(sum)),
{
    let repo = json_text(registry)->Ok_0;
    match e {
        EditView::Dependencies { dependencies, vpm_dependencies } => {
            law_dependency_edit(
                repo,
                t.name,
                t.version,
                dependencies,
                vpm_dependencies,
                sum,
            );
        },
        EditView::Conversion { path } => {
            law_conversion(repo, t.name, t.version, folder_name(path), sum);
        },
    }
}

proof fn lemma_job_history(host: Seq<char>, job: JobView, events: Seq<JobEventView>)
    ensures
        job_history(host, job, run_job(host, job, events).0, run_job(host, job, events).1, events),
    decreases events.len(),
{
    if events.len() > 0 {
        let head = events.drop_last();
        let event = events.last();
        let (st, acts) = run_job(host, job, head);
        let (stage, actions) = run_job(host, job, events);
        lemma_job_history(host, job, head);
        let step = next_job_step(host, st, event);
        assert(events =~= head.push(event));
        lemma_goes_on(acts, head, step.1, event);
        lemma_stays_stored(host, job, acts, head, step.1, event);
        assert(actions == acts.push(step.1));
        let n = acts.len() - 1;
        assert(actions[n] == acts.last());
        assert(actions[n + 1] == step.1);
        assert(actions.last() == step.1);
        assert(events[n] == event);
        match (st, event) {
            (JobStageView::Deleting(t), JobEventView::Registry(text)) => {
                if stored_deletion(text, host, t.name, t.version) is Ok {
                    let repo = json_text(text)->Ok_0;
                    law_deletion(repo, t.name, t.version);
                }
            },
            (JobStageView::Removing(t, after), JobEventView::Done) => {
                assert(events[0] == head[0]);
                assert(actions[1] == acts[1]);
            },
            (JobStageView::Opening(t, e, file), JobEventView::Manifest(bytes)) => {
                if new_manifest(e, bytes) is Ok {
                    assert(is_rebuilt(actions, file, n + 1));
                }
            },
            (JobStageView::Rebuilding(t, e, file), JobEventView::Done) => {
                assert(is_rebuilt(actions, file, n));
                assert(was_rebuilt(actions, file, n + 1));
            },
            (JobStageView::Hashing(t, e), JobEventView::Checksum(sum)) => {
                assert(was_rebuilt(actions, acts.last()->Hash_0, n));
                assert(is_hashed(actions, events, sum, n));
            },
            (JobStageView::Entering(t, e, sum), JobEventView::Registry(text)) => {
                if changed_registry(t, e, sum, text) is Ok {
                    lemma_checksum_entered(t, e, sum, text);
                }
            },
            (JobStageView::Storing(_), JobEventView::Done) => {
                assert(stored_at(host, job, actions, events, n));
            },
            (JobStageView::Regenerating(_), JobEventView::Report(_)) => {
                assert(stored_at(host, job, actions, events, n - 1));
                assert(regenerated_at(host, job, actions, events, n));
            },
            (JobStageView::Checking(_, _), JobEventView::Report(_)) => {
                assert(regenerated_at(host, job, actions, events, n - 1));
                assert(validated_at(host, job, actions, events, n));
            },
            _ => {},
        }
        assert(stage_history(host, job, stage, actions, events));
        assert(store_history(host, job, actions, events));
    }
}

/// A registry that a change of a version stores has the checksum of the package file
/// that was built anew for it, as it was computed after the building.
pub proof fn law_changes_store_the_new_checksum(
    host: Seq<char>,
    t: TargetView,
    e: EditView,
    events: Seq<JobEventView>,
)
    requires
        run_job(host, JobView::Change(t, e), events).1.last() is StoreRegistry,
    ensures
        has_new_checksum(
            run_job(host, JobView::Change(t, e), events).1,
            events,
            t,
            run_job(host, JobView::Change(t, e), events).1.last()->StoreRegistry_0,
        ),
{
    lemma_job_history(host, JobView::Change(t, e), events);
}

/// A registry that a deletion stores lists the version no more, and the file that the
/// version led to was removed before.
pub proof fn law_deletions_remove_the_file(
    host: Seq<char>,
    t: TargetView,
    events: Seq<JobEventView>,
)
    requires
        run_job(host, JobView::Delete(t), events).1.last() is StoreRegistry,
    ensures
        has_lost_version(
            host,
            run_job(host, JobView::Delete(t), events).1,
            events,
            t,
            run_job(host, JobView::Delete(t), events).1.last()->StoreRegistry_0,
        ),
{
    lemma_job_history(host, JobView::Delete(t), events);
}

/// A job is reported as done only where all of it was done: what it changes was stored,
/// then the category listings were generated anew, and then, but for the names of the
/// listings, the published listing was validated.
pub proof fn law_done_jobs_are_complete(host: Seq<char>, job: JobView, events: Seq<JobEventView>)
    requires
        run_job(host, job, events).1.last() matches JobActionView::Answer(r) && r.status == 200,
    ensures
        is_complete(host, job, run_job(host, job, events).1, events),
{
    lemma_job_history(host, job, events);
}

/// How many events a job can wait for.
pub open spec fn job_steps_left(stage: JobStageView) -> nat {
    match stage {
        JobStageView::Finding(_, _) => 8,
        JobStageView::Opening(_, _, _) => 7,
        JobStageView::Rebuilding(_, _, _) => 6,
        JobStageView::Hashing(_, _) => 5,
        JobStageView::Deleting(_) => 5,
        JobStageView::Entering(_, _, _) => 4,
        JobStageView::Removing(_, _) => 4,
        JobStageView::Renaming(_, _, _) => 4,
        JobStageView::Storing(_) => 3,
        JobStageView::Regenerating(_) => 2,
        JobStageView::Checking(_, _) => 1,
        JobStageView::Over => 0,
    }
}

/// Every job is answered: each event brings it nearer to its end, and it is over
/// exactly when it has been answered. What fails is answered as a failure.
pub proof fn law_every_job_is_answered(
    host: Seq<char>,
    job: JobView,
    stage: JobStageView,
    event: JobEventView,
)
    ensures
        job_steps_left(first_job_step(job).0) <= 8,
        stage !is Over ==> job_steps_left(next_job_step(host, stage, event).0) < job_steps_left(
            stage,
        ),
        first_job_step(job).1 !is Answer,
        next_job_step(host, stage, event).0 is Over <==> next_job_step(
            host,
            stage,
            event,
        ).1 is Answer,
        event matches JobEventView::Failed(reason) ==> next_job_step(host, stage, event)
            == job_failed(failure_text(stage, reason)),
{
}

// ---------------------------------------------------------------------------
// What whole jobs come to
// ---------------------------------------------------------------------------

/// The file of a version was found in the registry that was read first, and is opened.
spec fn has_found(
    host: Seq<char>,
    t: TargetView,
    actions: Seq<JobActionView>,
    events: Seq<JobEventView>,
    file: Seq<char>,
) -> bool {
    &&& events.len() >= 1
    &&& actions.len() >= 2
    &&& actions[0] is ReadRegistry
    &&& events[0] matches JobEventView::Registry(text) && stored_file(text, host, t.name, t.version)
        == Ok::<Seq<char>, Fault>(file)
    &&& actions[1] == JobActionView::ReadManifest(file)
}

/// The file of a version was opened, and is built anew.
spec fn has_opened(
    host: Seq<char>,
    t: TargetView,
    e: EditView,
    actions: Seq<JobActionView>,
    events: Seq<JobEventView>,
    file: Seq<char>,
) -> bool {
    &&& has_found(host, t, actions, events, file)
    &&& events.len() >= 2
    &&& actions.len() >= 3
    &&& events[1] matches JobEventView::Manifest(bytes) && (new_manifest(
        e,
        bytes,
    ) matches Ok(manifest) && actions[2] == (JobActionView::Rebuild {
        file,
        manifest,
        without: dropped_folder(e),
    }))
}

/// The file of a version was built anew and hashed, with this outcome.
spec fn has_hashed(
    host: Seq<char>,
    t: TargetView,
    e: EditView,
    actions: Seq<JobActionView>,
    events: Seq<JobEventView>,
    file: Seq<char>,
    sum: Seq<char>,
) -> bool {
    &&& has_opened(host, t, e, actions, events, file)
    &&& events.len() >= 4
    &&& actions.len() >= 5
    &&& events[2] is Done
    &&& actions[3] == JobActionView::Hash(file)
    &&& events[3] == JobEventView::Checksum(sum)
    &&& actions[4] is ReadRegistry
}

/// What happened on the way of a job to what it stores.
spec fn on_the_way(
    host: Seq<char>,
    job: JobView,
    stage: JobStageView,
    actions: Seq<JobActionView>,
    events: Seq<JobEventView>,
) -> bool {
    match stage {
        JobStageView::Deleting(t) => job == JobView::Delete(t) && events.len() == 0
            && actions[0] is ReadRegistry,
        JobStageView::Removing(t, after) => {
            &&& job == JobView::Delete(t)
            &&& events.len() == 1
            &&& actions[0] is ReadRegistry
            &&& events[0] matches JobEventView::Registry(text) && (stored_deletion(
                text,
                host,
                t.name,
                t.version,
            ) matches Ok(d) && d.1 == after && actions[1] == JobActionView::RemoveFile(d.0))
        },
        JobStageView::Finding(t, e) => job == JobView::Change(t, e) && events.len() == 0
            && actions[0] is ReadRegistry,
        JobStageView::Opening(t, e, file) => job == JobView::Change(t, e) && events.len() == 1
            && has_found(host, t, actions, events, file),
        JobStageView::Rebuilding(t, e, file) => job == JobView::Change(t, e) && events.len() == 2
            && has_opened(host, t, e, actions, events, file),
        JobStageView::Hashing(t, e) => {
            &&& job == JobView::Change(t, e)
            &&& events.len() == 3
            &&& events[2] is Done
            &&& actions[3] matches JobActionView::Hash(file) && has_opened(
                host,
                t,
                e,
                actions,
                events,
                file,
            )
        },
        JobStageView::Entering(t, e, sum) => {
            &&& job == JobView::Change(t, e)
            &&& events.len() == 4
            &&& actions[3] matches JobActionView::Hash(file) && has_hashed(
                host,
                t,
                e,
                actions,
                events,
                file,
                sum,
            )
        },
        JobStageView::Renaming(p, n, u) => job == JobView::SaveRepos(p, n, u) && events.len() == 0
            && actions[0] is ReadConf,
        JobStageView::Storing(_) => is_at_store(host, job, actions, events),
        _ => !(actions.last() is StoreRegistry) && !(actions.last() is StoreConf) && !(
        actions.last() is Rebuild) && !(actions.last() is RemoveFile),
    }
}

/// What happened before a job stores what it changes.
spec fn is_at_store(
    host: Seq<char>,
    job: JobView,
    actions: Seq<JobActionView>,
    events: Seq<JobEventView>,
) -> bool {
    match job {
        JobView::Delete(t) => {
            &&& events.len() == 2
            &&& actions[0] is ReadRegistry
            &&& events[1] is Done
            &&& events[0] matches JobEventView::Registry(text) && (stored_deletion(
                text,
                host,
                t.name,
                t.version,
            ) matches Ok(d) && actions[1] == JobActionView::RemoveFile(d.0) && actions[2]
                == JobActionView::StoreRegistry(d.1))
        },
        JobView::Change(t, e) => {
            &&& events.len() == 5
            &&& events[3] is Checksum
            &&& actions[3] matches JobActionView::Hash(file) && has_hashed(
                host,
                t,
                e,
                actions,
                events,
                file,
                events[3]->Checksum_0,
            )
            &&& events[4] matches JobEventView::Registry(text) && (changed_registry(
                t,
                e,
                events[3]->Checksum_0,
                text,
            ) matches Ok(after) && actions[5] == JobActionView::StoreRegistry(after))
        },
        JobView::SaveRepos(path, names, u) => {
            &&& events.len() == 1
            &&& actions[0] is ReadConf
            &&& events[0] matches JobEventView::Conf(text) && (stored_update(
                path,
                text,
                u,
                names,
            ) matches Ok(after) && actions[1] == JobActionView::StoreConf(after))
        },
    }
}

/// An event more leaves what was found and opened as it is.
proof fn lemma_stays_on_the_way(
    host: Seq<char>,
    t: TargetView,
    e: EditView,
    acts: Seq<JobActionView>,
    head: Seq<JobEventView>,
    action: JobActionView,
    event: JobEventView,
    file: Seq<char>,
)
    requires
        acts.len() == head.len() + 1,
    ensures
        has_found(host, t, acts, head, file) ==> has_found(
            host,
            t,
            acts.push(action),
            head.push(event),
            file,
        ),
        has_opened(host, t, e, acts, head, file) ==> has_opened(
            host,
            t,
            e,
            acts.push(action),
            head.push(event),
            file,
        ),
        forall|sum: Seq<char>| #[trigger]
            has_hashed(host, t, e, acts, head, file, sum) ==> has_hashed(
                host,
                t,
                e,
                acts.push(action),
                head.push(event),
                file,
                sum,
            ),
{
    let actions = acts.push(action);
    let events = head.push(event);
    assert(forall|i: int| 0 <= i < acts.len() ==> #[trigger] actions[i] == acts[i]);
    assert(forall|i: int| 0 <= i < head.len() ==> #[trigger] events[i] == head[i]);
}

/// Every job is on its way.
proof fn lemma_on_the_way(host: Seq<char>, job: JobView, events: Seq<JobEventView>)
    ensures
        run_job(host, job, events).1.len() == events.len() + 1,
        on_the_way(host, job, run_job(host, job, events).0, run_job(host, job, events).1, events),
    decreases events.len(),
{
    if events.len() > 0 {
        let head = events.drop_last();
        let event = events.last();
        let (st, acts) = run_job(host, job, head);
        let step = next_job_step(host, st, event);
        let actions = run_job(host, job, events).1;
        lemma_on_the_way(host, job, head);
        assert(events =~= head.push(event));
        assert(actions == acts.push(step.1));
        assert(actions[acts.len() as int] == step.1);
        assert(actions.last() == step.1);
        assert(forall|i: int| 0 <= i < acts.len() ==> #[trigger] actions[i] == acts[i]);
        assert(forall|i: int| 0 <= i < head.len() ==> #[trigger] events[i] == head[i]);
        assert(events[head.len() as int] == event);
        match st {
            JobStageView::Opening(t, e, file) => {
                lemma_stays_on_the_way(host, t, e, acts, head, step.1, event, file);
            },
            JobStageView::Rebuilding(t, e, file) => {
                lemma_stays_on_the_way(host, t, e, acts, head, step.1, event, file);
            },
            JobStageView::Hashing(t, e) => {
                let file = acts[3]->Hash_0;
                lemma_stays_on_the_way(host, t, e, acts, head, step.1, event, file);
            },
            JobStageView::Entering(t, e, sum) => {
                let file = acts[3]->Hash_0;
                lemma_stays_on_the_way(host, t, e, acts, head, step.1, event, file);
            },
            _ => {},
        }
    }
}

/// The registry that was read with an event.
pub open spec fn registry_read(events: Seq<JobEventView>, i: int) -> Option<JsonView> {
    if 0 <= i < events.len() {
        match events[i] {
            JobEventView::Registry(text) => match json_text(text) {
                Ok(repo) => Some(repo),
                Err(_) => None,
            },
            _ => None,
        }
    } else {
        None
    }
}

/// Whether the registry leads from a version to this file: by the address in its entry.
pub open spec fn leads_to(
    repo: Option<JsonView>,
    host: Seq<char>,
    t: TargetView,
    file: Seq<char>,
) -> bool {
    repo matches Some(r) && (member(entry_of(r, t.name, t.version), "url"@) matches Some(
        JsonView::Text(url),
    ) && file == file_of_address(host, url))
}

/// The file that a version is found in is the one that its entry leads to.
proof fn lemma_leads_to(
    events: Seq<JobEventView>,
    host: Seq<char>,
    t: TargetView,
    text: Seq<char>,
    file: Seq<char>,
)
    requires
        events.len() > 0,
        events[0] == JobEventView::Registry(text),
        stored_file(text, host, t.name, t.version) == Ok::<Seq<char>, Fault>(file),
    ensures
        leads_to(registry_read(events, 0), host, t, file),
{
    let repo = json_text(text)->Ok_0;
    let entry = entry_of(repo, t.name, t.version)->0;
    assert(member(entry_of(repo, t.name, t.version), "url"@) == entry.get("url"@));
}

/// Whether a package file is built anew as an edit asks: for a conversion with the
/// manifest that was in the file, as it is, and without the folder; for other
/// dependencies with that manifest, in which they are set and nothing else is changed.
pub open spec fn rebuilds_as_asked(
    e: EditView,
    bytes: Seq<u8>,
    manifest: JsonView,
    without: Option<Seq<char>>,
) -> bool {
    match e {
        EditView::Conversion { path } => {
            &&& without == Some(path)
            &&& json_bytes(bytes) matches Ok(v) ==> manifest == v
        },
        EditView::Dependencies { dependencies, vpm_dependencies } => {
            &&& without is None
            &&& manifest.get("dependencies"@) == Some(dependencies)
            &&& manifest.get("vpmDependencies"@) == Some(vpm_dependencies)
            &&& json_bytes(bytes) matches Ok(v) && forall|key: Seq<char>|
                key != "dependencies"@ && key != "vpmDependencies"@ ==> #[trigger] manifest.get(key)
                    == v.get(key)
        },
    }
}

/// A package file that a change of a version has built anew is the one that the registry
/// leads to, and holds the manifest that it had: the very same after a conversion, and
/// with nothing but other dependencies after an edit of these.
pub proof fn law_package_is_rebuilt_as_asked(
    host: Seq<char>,
    t: TargetView,
    e: EditView,
    events: Seq<JobEventView>,
)
    requires
        run_job(host, JobView::Change(t, e), events).1.last() is Rebuild,
    ensures
        events.len() == 2,
        ({
            let actions = run_job(host, JobView::Change(t, e), events).1;
            actions.last() matches JobActionView::Rebuild { file, manifest, without } && {
                &&& leads_to(registry_read(events, 0), host, t, file)
                &&& actions[1] == JobActionView::ReadManifest(file)
                &&& events[1] matches JobEventView::Manifest(bytes) && rebuilds_as_asked(
                    e,
                    bytes,
                    manifest,
                    without,
                )
            }
        }),
{
    let job = JobView::Change(t, e);
    lemma_on_the_way(host, job, events);
    let stage = run_job(host, job, events).0;
    lemma_rebuilding(host, job, events);
    let file = stage->Rebuilding_2;
    let bytes = events[1]->Manifest_0;
    lemma_leads_to(events, host, t, events[0]->Registry_0, file);
    lemma_rebuilds_as_asked(e, bytes);
}

/// The manifest of a file that is built anew is the one that was asked for.
proof fn lemma_rebuilds_as_asked(e: EditView, bytes: Seq<u8>)
    requires
        new_manifest(e, bytes) is Ok,
    ensures
        rebuilds_as_asked(e, bytes, new_manifest(e, bytes)->Ok_0, dropped_folder(e)),
{
    reveal_strlit("dependencies");
    reveal_strlit("vpmDependencies");
    assert("dependencies"@.len() != "vpmDependencies"@.len());
}

/// While a file is built anew, that is the last thing that was asked for.
proof fn lemma_rebuilding(host: Seq<char>, job: JobView, events: Seq<JobEventView>)
    ensures
        run_job(host, job, events).1.last() is Rebuild ==> run_job(host, job, events).0 is Rebuilding,
        run_job(host, job, events).1.last() is StoreRegistry || run_job(
            host,
            job,
            events,
        ).1.last() is StoreConf ==> run_job(host, job, events).0 is Storing,
        run_job(host, job, events).1.last() is RemoveFile ==> run_job(
            host,
            job,
            events,
        ).0 is Removing,
{
    if events.len() > 0 {
        let st = run_job(host, job, events.drop_last()).0;
        let step = next_job_step(host, st, events.last());
        assert(run_job(host, job, events).1.last() == step.1);
    }
}

/// Whether the entry of a version has changed as an edit asks, with this checksum, and
/// nothing else in the registry: its dependencies are the given ones, or the folder of a
/// conversion is one of its VPM dependencies beside those that it had.
pub open spec fn changes_as_asked(
    t: TargetView,
    e: EditView,
    repo: JsonView,
    after: JsonView,
    sum: Seq<char>,
) -> bool {
    let entry = entry_of(after, t.name, t.version);
    &&& only_entry_changed(repo, after, t.name, t.version)
    &&& member(entry, "zipSHA256"@) == Some(JsonView::Text(sum))
    &&& match e {
        EditView::Dependencies { dependencies, vpm_dependencies } => {
            &&& member(entry, "dependencies"@) == Some(dependencies)
            &&& member(entry, "vpmDependencies"@) == Some(vpm_dependencies)
            &&& forall|key: Seq<char>|
                key != "dependencies"@ && key != "vpmDependencies"@ && key != "zipSHA256"@
                    ==> #[trigger] member(entry, key) == member(
                    entry_of(repo, t.name, t.version),
                    key,
                )
        },
        EditView::Conversion { path } => {
            &&& gains_dependency(
                member(entry_of(repo, t.name, t.version), "vpmDependencies"@),
                member(entry, "vpmDependencies"@),
                path,
            )
            &&& forall|key: Seq<char>|
                key != "vpmDependencies"@ && key != "zipSHA256"@ ==> #[trigger] member(entry, key)
                    == member(entry_of(repo, t.name, t.version), key)
        },
    }
}

/// Whether a name is that of the folder at a path: the path ends with it, and it is a
/// whole part of the path.
pub open spec fn is_folder_at(path: Seq<char>, folder: Seq<char>) -> bool {
    &&& !folder.contains('/')
    &&& path == folder || exists|front: Seq<char>| path == #[trigger] (front + "/"@) + folder
}

/// Whether dependencies have gained the folder at a path, and kept what they had.
pub open spec fn gains_dependency(
    had: Option<JsonView>,
    has: Option<JsonView>,
    path: Seq<char>,
) -> bool {
    exists|folder: Seq<char>| #[trigger]
        is_folder_at(path, folder) && member(has, folder) == Some(JsonView::Text("1.0.0"@))
            && forall|key: Seq<char>|
            key != folder ==> #[trigger] member(has, key) == member(had, key)
}

/// The name of the folder at a path is its last part.
proof fn lemma_folder_at(path: Seq<char>)
    ensures
        is_folder_at(path, folder_name(path)),
    decreases path.len(),
{
    reveal_strlit("/");
    assert("/"@ =~= seq!['/']);
    lemma_pieces_nonempty(path, '/');
    if path.len() == 0 {
        assert(folder_name(path) =~= path);
    } else {
        let head = path.drop_last();
        let rest = folder_name(head);
        lemma_pieces_nonempty(head, '/');
        lemma_folder_at(head);
        assert(path =~= head + seq![path.last()]);
        if path.last() == '/' {
            assert(folder_name(path) =~= Seq::<char>::empty());
            assert(path =~= (head + "/"@) + folder_name(path));
        } else {
            let folder = folder_name(path);
            assert(folder == rest.push(path.last()));
            if head == rest {
                assert(path =~= folder);
            } else {
                let front = choose|front: Seq<char>| head == #[trigger] (front + "/"@) + rest;
                assert(path =~= (front + "/"@) + folder);
            }
        }
    }
}

/// The registry that a change of a version stores has changed as the edit asks: in the
/// entry of the version alone. The checksum is the one that was computed of the file
/// that was built anew, and the registry is the one that was read after that.
pub proof fn law_changes_are_stored_as_asked(
    host: Seq<char>,
    t: TargetView,
    e: EditView,
    events: Seq<JobEventView>,
)
    requires
        run_job(host, JobView::Change(t, e), events).1.last() is StoreRegistry,
    ensures
        events.len() == 5,
        ({
            let actions = run_job(host, JobView::Change(t, e), events).1;
            &&& actions[2] matches JobActionView::Rebuild { file, manifest: _, without: _ }
                && actions[3] == JobActionView::Hash(file)
            &&& events[2] is Done
            &&& actions[4] is ReadRegistry
            &&& events[3] matches JobEventView::Checksum(sum) && (registry_read(
                events,
                4,
            ) matches Some(repo) && changes_as_asked(
                t,
                e,
                repo,
                actions.last()->StoreRegistry_0,
                sum,
            ))
        }),
{
    let job = JobView::Change(t, e);
    lemma_on_the_way(host, job, events);
    lemma_rebuilding(host, job, events);
    let sum = events[3]->Checksum_0;
    let repo = json_text(events[4]->Registry_0)->Ok_0;
    match e {
        EditView::Dependencies { dependencies, vpm_dependencies } => {
            law_dependency_edit(repo, t.name, t.version, dependencies, vpm_dependencies, sum);
        },
        EditView::Conversion { path } => {
            let folder = folder_name(path);
            law_conversion(repo, t.name, t.version, folder, sum);
            lemma_folder_at(path);
            let after = conversion(repo, t.name, t.version, folder, sum)->Ok_0;
            let had = member(entry_of(repo, t.name, t.version), "vpmDependencies"@);
            let has = member(entry_of(after, t.name, t.version), "vpmDependencies"@);
            assert(member(has, folder) == Some(JsonView::Text("1.0.0"@)));
            assert forall|key: Seq<char>| key != folder implies #[trigger] member(has, key)
                == member(had, key) by {}
            assert(is_folder_at(path, folder));
        },
    }
}

/// Whether a version is gone from a registry, and nothing else: the other versions have
/// the entries that they had, and the package is gone with its last version.
pub open spec fn is_without_version(repo: JsonView, after: JsonView, t: TargetView) -> bool {
    &&& lists(repo, t.name, t.version)
    &&& !lists(after, t.name, t.version)
    &&& forall|v: Seq<char>|
        v != t.version ==> #[trigger] lists(after, t.name, v) == lists(repo, t.name, v)
    &&& forall|v: Seq<char>| #[trigger]
        lists(after, t.name, v) ==> versions(after, t.name)->0[v] == versions(repo, t.name)->0[v]
    &&& package(after, t.name) is None <==> (forall|v: Seq<char>| #[trigger]
        lists(repo, t.name, v) ==> v == t.version)
    &&& forall|other: Seq<char>|
        other != t.name ==> #[trigger] package(after, other) == package(repo, other)
    &&& forall|key: Seq<char>|
        key != "packages"@ ==> #[trigger] after.get(key) == repo.get(key)
}

/// A deletion removes the file that the registry leads to, and then stores the registry
/// without the version.
pub proof fn law_deletions_take_the_version_out(
    host: Seq<char>,
    t: TargetView,
    events: Seq<JobEventView>,
)
    requires
        run_job(host, JobView::Delete(t), events).1.last() is StoreRegistry,
    ensures
        events.len() == 2,
        ({
            let actions = run_job(host, JobView::Delete(t), events).1;
            &&& actions[1] matches JobActionView::RemoveFile(file) && leads_to(
                registry_read(events, 0),
                host,
                t,
                file,
            )
            &&& events[1] is Done
            &&& registry_read(events, 0) matches Some(repo) && is_without_version(
                repo,
                actions.last()->StoreRegistry_0,
                t,
            )
        }),
{
    let job = JobView::Delete(t);
    lemma_on_the_way(host, job, events);
    lemma_rebuilding(host, job, events);
    let text = events[0]->Registry_0;
    let repo = json_text(text)->Ok_0;
    let file = stored_deletion(text, host, t.name, t.version)->Ok_0.0;
    assert(stored_file(text, host, t.name, t.version) == Ok::<Seq<char>, Fault>(file));
    lemma_leads_to(events, host, t, text, file);
    law_deletion(repo, t.name, t.version);
}

/// The `repos.conf` that a renaming of listings stores is the one that was read, with the
/// names and ids that are given: those of the master listing, and those of the last
/// update of a category. What is not given stays.
pub proof fn law_listings_are_renamed_as_asked(
    host: Seq<char>,
    path: Seq<char>,
    names: Seq<Seq<char>>,
    u: UpdateView,
    events: Seq<JobEventView>,
    i: int,
)
    requires
        run_job(host, JobView::SaveRepos(path, names, u), events).1.last() is StoreConf,
        0 <= i < u.categories.len(),
        names.contains(u.categories[i].name),
        forall|j: int|
            i < j < u.categories.len() ==> (#[trigger] u.categories[j]).name
                != u.categories[i].name,
    ensures
        ({
            let actions = run_job(host, JobView::SaveRepos(path, names, u), events).1;
            let after = actions.last()->StoreConf_0;
            is_shown(conf_of(after, names).categories, u.categories[i])
        }),
{
    let job = JobView::SaveRepos(path, names, u);
    lemma_on_the_way(host, job, events);
    lemma_rebuilding(host, job, events);
    let text = events[0]->Conf_0;
    let v = match text {
        Some(t) => json_text(t)->Ok_0,
        None => empty_conf(),
    };
    law_saved_listing_is_shown(v, u, names, i);
}

/// The master listing in the `repos.conf` that a renaming of listings stores has the name
/// and the id that are given; where none is given, and for all else, what was read
/// stands.
pub proof fn law_master_listing_is_renamed_as_asked(
    host: Seq<char>,
    path: Seq<char>,
    names: Seq<Seq<char>>,
    u: UpdateView,
    events: Seq<JobEventView>,
)
    requires
        run_job(host, JobView::SaveRepos(path, names, u), events).1.last() is StoreConf,
    ensures
        events.len() == 1,
        events[0] is Conf,
        ({
            let actions = run_job(host, JobView::SaveRepos(path, names, u), events).1;
            let after = actions.last()->StoreConf_0;
            let read = match events[0]->Conf_0 {
                Some(t) => json_text(t),
                None => Ok(empty_conf()),
            };
            &&& is_given(u.master_name) ==> after.get("master_name"@) == Some(
                JsonView::Text(u.master_name->0),
            )
            &&& is_given(u.master_id) ==> after.get("master_id"@) == Some(
                JsonView::Text(u.master_id->0),
            )
            &&& read matches Ok(v) && {
                &&& !is_given(u.master_name) ==> after.get("master_name"@) == v.get("master_name"@)
                &&& !is_given(u.master_id) ==> after.get("master_id"@) == v.get("master_id"@)
                &&& forall|key: Seq<char>|
                    key != "master_name"@ && key != "master_id"@ && key != "categories"@
                        ==> #[trigger] after.get(key) == v.get(key)
            }
        }),
{
    let job = JobView::SaveRepos(path, names, u);
    lemma_on_the_way(host, job, events);
    lemma_rebuilding(host, job, events);
    let v = match events[0]->Conf_0 {
        Some(t) => json_text(t)->Ok_0,
        None => empty_conf(),
    };
    law_saved_conf_is_read(v, u, names);
    reveal_strlit("master_name");
    reveal_strlit("master_id");
    reveal_strlit("categories");
    assert("master_name"@.len() == 11 && "master_id"@.len() == 9 && "categories"@.len() == 10);
    assert(v is Object);
}

/// A job that fails is answered as one that was not found, with the reason; a job that is
/// done is answered well.
pub proof fn law_job_answers_tell_success_from_failure(
    host: Seq<char>,
    stage: JobStageView,
    event: JobEventView,
)
    requires
        next_job_step(host, stage, event).1 is Answer,
    ensures
        ({
            let r = next_job_step(host, stage, event).1->Answer_0;
            &&& r.status == 200 || r.status == 404
            &&& r.body.get("ok"@) == Some(JsonView::Bool(r.status == 200))
            &&& r.status == 200 <==> (event is Report && (stage is Checking || (
            stage matches JobStageView::Regenerating(e) && e is ReposSaved)))
            &&& event matches JobEventView::Failed(reason) ==> (r.body.get("error"@) == Some(
                JsonView::Text(reason),
            ) || (stage is Checking && r.body.get("error"@) == Some(
                JsonView::Text("validation failed: "@ + reason),
            )))
        }),
{
    reveal_strlit("ok");
    reveal_strlit("error");
    reveal_strlit("message");
    assert("ok"@.len() == 2 && "error"@.len() == 5 && "message"@.len() == 7);
}

/// A deletion and an edit are answered with the package and the version that they were
/// about, and a conversion with the path of its folder.
pub proof fn law_job_answers_name_the_package(
    t: TargetView,
    e: EditView,
    sum: Seq<char>,
    regen: Seq<char>,
)
    ensures
        ("removed "@ + t.name + "@"@ + t.version).is_prefix_of(
            deletion_text(t.name, t.version, regen),
        ),
        after_regeneration(EndingView::Deleted(t), regen).0 == JobStageView::Checking(
            deletion_text(t.name, t.version, regen),
            false,
        ),
        e is Dependencies ==> change_ending(t, e, sum) is Edited,
        e matches EditView::Conversion { path } ==> (change_ending(
            t,
            e,
            sum,
        ) matches EndingView::Converted(text) && ("converted folder '"@ + path).is_prefix_of(text)),
{
    let head = "removed "@ + t.name + "@"@ + t.version;
    let text = deletion_text(t.name, t.version, regen);
    assert(text.subrange(0, head.len() as int) =~= head);
    match e {
        EditView::Conversion { path } => {
            let head = "converted folder '"@ + path;
            let text = conversion_text(path, folder_name(path));
            assert(text.subrange(0, head.len() as int) =~= head);
        },
        _ => {},
    }
}

/// Whether an event is what comes of an action that succeeds.
pub open spec fn job_event_of(action: JobActionView, event: JobEventView) -> bool {
    match action {
        JobActionView::ReadRegistry => event is Registry,
        JobActionView::RemoveFile(_) => event is Done,
        JobActionView::ReadManifest(_) => event is Manifest,
        JobActionView::Rebuild { file: _, manifest: _, without: _ } => event is Done,
        JobActionView::Hash(_) => event is Checksum,
        JobActionView::StoreRegistry(_) => event is Done,
        JobActionView::ReadConf => event is Conf,
        JobActionView::StoreConf(_) => event is Done,
        JobActionView::Regenerate => event is Report,
        JobActionView::ValidateListing => event is Report,
        JobActionView::Answer(_) => false,
    }
}

/// Every stage of a job waits for what was asked for last.
spec fn job_waits(job: JobView, stage: JobStageView, action: JobActionView) -> bool {
    match stage {
        JobStageView::Deleting(t) => job == JobView::Delete(t) && action is ReadRegistry,
        JobStageView::Removing(_, _) => action is RemoveFile,
        JobStageView::Finding(t, e) => job == JobView::Change(t, e) && action is ReadRegistry,
        JobStageView::Opening(t, e, _) => job == JobView::Change(t, e) && action is ReadManifest,
        JobStageView::Rebuilding(t, e, _) => job == JobView::Change(t, e) && action is Rebuild,
        JobStageView::Hashing(t, e) => job == JobView::Change(t, e) && action is Hash,
        JobStageView::Entering(t, e, _) => job == JobView::Change(t, e) && action is ReadRegistry,
        JobStageView::Renaming(p, n, u) => job == JobView::SaveRepos(p, n, u) && action is ReadConf,
        JobStageView::Storing(_) => action is StoreRegistry || action is StoreConf,
        JobStageView::Regenerating(_) => action is Regenerate,
        JobStageView::Checking(_, _) => action is ValidateListing,
        JobStageView::Over => action is Answer,
    }
}

/// Every stage of a job waits for what was asked for last.
proof fn lemma_job_waits(host: Seq<char>, job: JobView, events: Seq<JobEventView>)
    ensures
        run_job(host, job, events).1.len() == events.len() + 1,
        job_waits(job, run_job(host, job, events).0, run_job(host, job, events).1.last()),
    decreases events.len(),
{
    if events.len() > 0 {
        lemma_job_waits(host, job, events.drop_last());
    }
}

/// Whether a registry is of no use to a job on a version: it is no JSON, or the parts on
/// the way to the version do not have their shape, or the version has no entry that is
/// an object with an address.
pub open spec fn is_no_registry_of(text: Seq<char>, t: TargetView) -> bool {
    match json_text(text) {
        Ok(repo) => {
            ||| !can_reach(repo, t.name)
            ||| !can_convert(repo, t.name, t.version)
            ||| !(entry_of(repo, t.name, t.version) matches Some(e) && e is Object)
            ||| !(member(entry_of(repo, t.name, t.version), "url"@) matches Some(JsonView::Text(_)))
        },
        Err(_) => true,
    }
}

/// A job fails only for a reason: an action failed, or brought something else than it
/// should; or the registry, the manifest or `repos.conf` that was read could not be used.
/// Otherwise it goes on, to the answer that it is done.
pub proof fn law_jobs_fail_only_for_a_reason(
    host: Seq<char>,
    job: JobView,
    events: Seq<JobEventView>,
)
    requires
        events.len() > 0,
        run_job(host, job, events.drop_last()).1.last() !is Answer,
        run_job(host, job, events).1.last() matches JobActionView::Answer(r) && r.status != 200,
    ensures
        ({
            let action = run_job(host, job, events).1[events.len() - 1];
            let event = events.last();
            ||| event is Failed
            ||| !job_event_of(action, event)
            ||| (match (job, event) {
                (JobView::Delete(t), JobEventView::Registry(text)) => is_no_registry_of(text, t),
                (JobView::Change(t, _), JobEventView::Registry(text)) => is_no_registry_of(text, t),
                (JobView::Change(_, e), JobEventView::Manifest(bytes)) => e is Dependencies && (
                json_bytes(bytes) matches Ok(v) ==> !(v is Object) && !(v is Null)),
                (JobView::SaveRepos(_, _, _), JobEventView::Conf(Some(text))) => !(json_text(
                    text,
                ) matches Ok(v) && v.get("categories"@) matches Some(JsonView::Array(_))),
                _ => false,
            })
        }),
{
    let head = events.drop_last();
    let (st, acts) = run_job(host, job, head);
    lemma_job_waits(host, job, head);
    let event = events.last();
    assert(run_job(host, job, events).1[events.len() - 1] == acts.last());
    match (st, event) {
        (JobStageView::Deleting(t), JobEventView::Registry(text)) => {
            if json_text(text) is Ok {
                law_listed_versions_can_be_deleted(
                    json_text(text)->Ok_0,
                    host,
                    t.name,
                    t.version,
                );
            }
        },
        (JobStageView::Finding(t, e), JobEventView::Registry(text)) => {
            if json_text(text) is Ok {
                law_listed_files_are_found(json_text(text)->Ok_0, host, t.name, t.version);
            }
        },
        (JobStageView::Renaming(p, n, u), JobEventView::Conf(text)) => {
            law_updates_are_refused_for_a_reason(p, text, u, n);
        },
        _ => {},
    }
}

/// Whether a job turns a folder of a package into a dependency.
pub open spec fn is_conversion(job: JobView) -> bool {
    job matches JobView::Change(_, EditView::Conversion { path: _ })
}

/// Whether a stage knows whether its job turns a folder into a dependency.
spec fn knows_conversion(job: JobView, stage: JobStageView) -> bool {
    match stage {
        JobStageView::Removing(_, _) => !is_conversion(job),
        JobStageView::Storing(e) => (e is Converted) == is_conversion(job),
        JobStageView::Regenerating(e) => (e is Converted) == is_conversion(job),
        JobStageView::Checking(_, converted) => converted == is_conversion(job),
        _ => true,
    }
}

/// Every stage knows whether its job turns a folder into a dependency.
proof fn lemma_knows_conversion(host: Seq<char>, job: JobView, events: Seq<JobEventView>)
    ensures
        knows_conversion(job, run_job(host, job, events).0),
    decreases events.len(),
{
    if events.len() > 0 {
        lemma_knows_conversion(host, job, events.drop_last());
        lemma_job_waits(host, job, events.drop_last());
    }
}

/// A failure is answered with its reason; where it is the listing that does not hold after
/// a folder became a dependency, the answer says so.
pub proof fn law_job_failures_are_answered_with_their_reason(
    host: Seq<char>,
    job: JobView,
    events: Seq<JobEventView>,
    reason: Seq<char>,
)
    requires
        events.len() > 0,
        events.last() == JobEventView::Failed(reason),
    ensures
        ({
            let actions = run_job(host, job, events).1;
            let text = if is_conversion(job) && actions[events.len() - 1] is ValidateListing {
                "validation failed: "@ + reason
            } else {
                reason
            };
            actions.last() matches JobActionView::Answer(r) && r.status == 404 && r.body.get("ok"@)
                == Some(JsonView::Bool(false)) && r.body.get("error"@) == Some(
                JsonView::Text(text),
            )
        }),
{
    let head = events.drop_last();
    lemma_knows_conversion(host, job, head);
    lemma_job_waits(host, job, head);
    let (st, acts) = run_job(host, job, head);
    assert(run_job(host, job, events).1[events.len() - 1] == acts.last());
    law_verdicts_say_how_it_went(false, failure_text(st, reason));
}

} // verus!
