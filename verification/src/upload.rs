//! An upload, from the form to the published package.
//!
//! The shop goes through an upload step by step. Each step ends with an action, for
//! the program to carry out, and the next step starts with what came of it.

use vstd::prelude::*;
use vstd::string::*;

use crate::codec::json_text;
use crate::demotion::{
    RenameView, ZipRename, chosen_slot, demote_existing_version, demotion_note, is_demoted_to,
    is_demoted_to_the_end, law_demotion_takes_the_next_number,
    law_demotion_takes_the_number_asked_for, renames_make_room, renames_view, stored_outcome,
    stored_renames,
};
use crate::edits::{
    can_publish, entry_of, law_publication, odd_shape, publication, published, update_master_repo,
};
use crate::error::{Fault, ShopError, refused};
use crate::json::{Json, JsonView, seen, seen_ref};
use crate::manifest::{
    build_pkg_json, build_version_entry, is_entry_of, law_manifest_is_stamped,
    law_manifest_keeps_what_the_upload_says, law_published_file_is_found, lemma_entry_category,
    lemma_entry_of_manifest, manifest, says_of_itself, version_entry,
};
use crate::names::{dir_name, law_dir_name_of_id, sanitize_dir, valid_id};
use crate::registry::{category, file_of_version, lists, package, version_exists, versions};
use crate::replies::{has_part, lemma_has_part};
use crate::request::{
    FileView, FormView, Plan, PlanView, Request, RequestView, UploadForm, UploadedFile,
    asks_registry, authentic, check_files, check_request, files_refusal, files_view, is_filled,
    law_plan_follows_the_request, law_plan_takes_the_next_candidate, law_plans_are_valid,
    law_plans_take_a_free_version, law_request_says_what_the_form_says, law_void_files_are_refused,
    needs_registry, plan_upload, planned, request_of,
};
use crate::text::{
    ascii_lowercase, cat3, cat5, decimal, lowercase, replaced, texts, trimmed, without_end_slashes,
};
use crate::urls::{
    index_address, index_url, zip_address, zip_file, zip_file_name, zip_name, zip_path, zip_url,
};



verus! {

// ---------------------------------------------------------------------------
// The parts of an upload
// ---------------------------------------------------------------------------

/// What the shop is run with.
#[derive(Debug)]
pub struct Settings {
    pub username: String,
    pub password: String,
    /// The public address of the shop.
    pub host: String,
    pub categories: Vec<String>,
    /// The author of packages that name none.
    pub author: String,
}

/// What settings say.
pub struct SettingsView {
    pub username: Seq<char>,
    pub password: Seq<char>,
    pub host: Seq<char>,
    pub categories: Seq<Seq<char>>,
    pub author: Seq<char>,
}

impl View for Settings {
    type V = SettingsView;

    open spec fn view(&self) -> SettingsView {
        SettingsView {
            username: self.username@,
            password: self.password@,
            host: self.host@,
            categories: texts(self.categories@),
            author: self.author@,
        }
    }
}

/// What there is of an upload so far.
#[derive(Debug)]
pub struct Work {
    pub plan: Plan,
    pub manifest: Json,
    /// What the validator said of the manifest, once it has accepted it.
    pub report: Option<String>,
    /// What became of the version that had to make room.
    pub note: String,
    pub checksum: String,
    /// What the generator of the category listings said.
    pub regen: String,
}

/// What the work on an upload says.
pub struct WorkView {
    pub plan: PlanView,
    pub manifest: JsonView,
    pub report: Option<Seq<char>>,
    pub note: Seq<char>,
    pub checksum: Seq<char>,
    pub regen: Seq<char>,
}

impl View for Work {
    type V = WorkView;

    open spec fn view(&self) -> WorkView {
        WorkView {
            plan: self.plan@,
            manifest: self.manifest@,
            report: match self.report {
                Some(t) => Some(t@),
                None => None,
            },
            note: self.note@,
            checksum: self.checksum@,
            regen: self.regen@,
        }
    }
}

/// How far an upload has come.
#[derive(Debug)]
pub enum Stage {
    /// The registry is read, to decide under what the upload is published.
    Resolving(Request, Vec<UploadedFile>),
    /// The uploaded files are taken apart.
    Ingesting(Plan),
    /// The package file is built, aside.
    Building(Work),
    /// The manifest is validated.
    Validating(Work),
    /// The registry is read, to make room for the version.
    Demoting(Work),
    /// The files of the versions that make room are renamed.
    Renaming(Work, Result<(Json, String), ShopError>),
    /// The registry in which the version has room is stored.
    MakingRoom(Work),
    /// The package file is moved to its place.
    Moving(Work),
    /// The checksum of the package file is computed.
    Hashing(Work),
    /// The registry is read, to enter the version.
    Entering(Work),
    /// The registry with the version is stored.
    Storing(Work),
    /// The category listings are generated anew.
    Regenerating(Work),
    /// The published listing is validated.
    Checking(Work),
    /// The upload has been answered.
    Over,
}

/// What a stage says.
pub enum StageView {
    Resolving(RequestView, Seq<FileView>),
    Ingesting(PlanView),
    Building(WorkView),
    Validating(WorkView),
    Demoting(WorkView),
    Renaming(WorkView, Result<(JsonView, Seq<char>), Fault>),
    MakingRoom(WorkView),
    Moving(WorkView),
    Hashing(WorkView),
    Entering(WorkView),
    Storing(WorkView),
    Regenerating(WorkView),
    Checking(WorkView),
    Over,
}

/// What the outcome of a demotion says.
pub open spec fn outcome_view(r: Result<(Json, String), ShopError>) -> Result<
    (JsonView, Seq<char>),
    Fault,
> {
    match r {
        Ok((after, note)) => Ok((after@, note@)),
        Err(e) => Err(e@),
    }
}

impl View for Stage {
    type V = StageView;

    open spec fn view(&self) -> StageView {
        match self {
            Stage::Resolving(r, files) => StageView::Resolving(r@, files_view(files@)),
            Stage::Ingesting(p) => StageView::Ingesting(p@),
            Stage::Building(w) => StageView::Building(w@),
            Stage::Validating(w) => StageView::Validating(w@),
            Stage::Demoting(w) => StageView::Demoting(w@),
            Stage::Renaming(w, o) => StageView::Renaming(w@, outcome_view(*o)),
            Stage::MakingRoom(w) => StageView::MakingRoom(w@),
            Stage::Moving(w) => StageView::Moving(w@),
            Stage::Hashing(w) => StageView::Hashing(w@),
            Stage::Entering(w) => StageView::Entering(w@),
            Stage::Storing(w) => StageView::Storing(w@),
            Stage::Regenerating(w) => StageView::Regenerating(w@),
            Stage::Checking(w) => StageView::Checking(w@),
            Stage::Over => StageView::Over,
        }
    }
}

/// What the program has to do next.
#[derive(Debug)]
pub enum Action {
    /// Read the text of the registry.
    ReadRegistry,
    /// Take the uploaded files apart, and look for a manifest among them. What is in a
    /// `.unitypackage` goes into this directory too, from the one that holds the
    /// categories on.
    Ingest { directory: String },
    /// Write the manifest into this directory, from the one that holds the categories
    /// on, and build the package file of this name aside.
    Build { directory: String, zip: String, manifest: Json },
    /// Have the manifest validated.
    ValidateManifest,
    /// Give files other names, in this order.
    Rename(Vec<ZipRename>),
    /// Store the registry.
    StoreRegistry(Json),
    /// Move the package file to this place, from the directory that holds the
    /// categories on.
    MoveZip(String),
    /// Compute the checksum of the package file.
    Hash,
    /// Generate the category listings anew.
    Regenerate,
    /// Have the published listing validated.
    ValidateListing,
    /// Answer the upload: well or badly, with this text.
    Reply(bool, String),
}

/// What an action says.
pub enum ActionView {
    ReadRegistry,
    Ingest { directory: Seq<char> },
    Build { directory: Seq<char>, zip: Seq<char>, manifest: JsonView },
    ValidateManifest,
    Rename(Seq<RenameView>),
    StoreRegistry(JsonView),
    MoveZip(Seq<char>),
    Hash,
    Regenerate,
    ValidateListing,
    Reply(bool, Seq<char>),
}

impl View for Action {
    type V = ActionView;

    open spec fn view(&self) -> ActionView {
        match self {
            Action::ReadRegistry => ActionView::ReadRegistry,
            Action::Ingest { directory } => ActionView::Ingest { directory: directory@ },
            Action::Build { directory, zip, manifest } => ActionView::Build {
                directory: directory@,
                zip: zip@,
                manifest: manifest@,
            },
            Action::ValidateManifest => ActionView::ValidateManifest,
            Action::Rename(v) => ActionView::Rename(renames_view(v@)),
            Action::StoreRegistry(j) => ActionView::StoreRegistry(j@),
            Action::MoveZip(f) => ActionView::MoveZip(f@),
            Action::Hash => ActionView::Hash,
            Action::Regenerate => ActionView::Regenerate,
            Action::ValidateListing => ActionView::ValidateListing,
            Action::Reply(ok, t) => ActionView::Reply(*ok, t@),
        }
    }
}

/// What came of an action.
#[derive(Debug)]
pub enum Event {
    /// It is done.
    Done,
    /// The text of the registry.
    Registry(String),
    /// The manifest that the uploaded files bring along, if any.
    Manifest(Option<Json>),
    /// What a program that succeeded has printed.
    Report(String),
    /// The checksum.
    Checksum(String),
    /// It failed, for this reason.
    Failed(String),
}

/// What an event says.
pub enum EventView {
    Done,
    Registry(Seq<char>),
    Manifest(Option<JsonView>),
    Report(Seq<char>),
    Checksum(Seq<char>),
    Failed(Seq<char>),
}

impl View for Event {
    type V = EventView;

    open spec fn view(&self) -> EventView {
        match self {
            Event::Done => EventView::Done,
            Event::Registry(t) => EventView::Registry(t@),
            Event::Manifest(m) => EventView::Manifest(seen(*m)),
            Event::Report(t) => EventView::Report(t@),
            Event::Checksum(t) => EventView::Checksum(t@),
            Event::Failed(t) => EventView::Failed(t@),
        }
    }
}

// ---------------------------------------------------------------------------
// The steps
// ---------------------------------------------------------------------------

/// The text of a failure.
pub open spec fn fault_text(f: Fault) -> Seq<char> {
    match f {
        Fault::Refused(t) => t,
        Fault::Broken(t) => t,
    }
}

/// The end of an upload that is not published.
pub open spec fn give_up(text: Seq<char>) -> (StageView, ActionView) {
    (StageView::Over, ActionView::Reply(false, text))
}

/// The directory of the package that a plan publishes.
pub open spec fn plan_directory(p: PlanView) -> Seq<char> {
    p.category + "/"@ + dir_name(p.name)
}

/// The step after the plan of an upload was made.
pub open spec fn begin_work(
    plan: Result<PlanView, Fault>,
    files: Seq<FileView>,
) -> (StageView, ActionView) {
    match plan {
        Ok(p) => match files_refusal(files) {
            None => (
                StageView::Ingesting(p),
                ActionView::Ingest { directory: plan_directory(p) },
            ),
            Some(f) => give_up(fault_text(f)),
        },
        Err(f) => give_up(fault_text(f)),
    }
}

/// The first step.
pub open spec fn first_step(s: SettingsView, form: FormView) -> (StageView, ActionView) {
    match request_of(form, s.username, s.password) {
        Ok(r) => if asks_registry(r) {
            (StageView::Resolving(r, form.files), ActionView::ReadRegistry)
        } else {
            begin_work(planned(r, s.categories, Seq::empty()), form.files)
        },
        Err(f) => give_up(fault_text(f)),
    }
}

/// The address under which a plan publishes its package file.
pub open spec fn plan_address(s: SettingsView, p: PlanView) -> Seq<char> {
    zip_address(s.host, p.category, dir_name(p.name), p.version)
}

/// The file in which a plan publishes its package.
pub open spec fn plan_file(p: PlanView) -> Seq<char> {
    zip_file(p.category, dir_name(p.name), p.version)
}

/// The work that starts with a plan and what the upload brings along.
pub open spec fn new_work(s: SettingsView, p: PlanView, meta: Option<JsonView>) -> WorkView {
    WorkView {
        plan: p,
        manifest: manifest(p.name, p.version, p.category, plan_address(s, p), meta, s.author),
        report: None,
        note: Seq::empty(),
        checksum: Seq::empty(),
        regen: Seq::empty(),
    }
}

/// The step in which the package file is built.
pub open spec fn build_step(s: SettingsView, p: PlanView, meta: Option<JsonView>) -> (
    StageView,
    ActionView,
) {
    let w = new_work(s, p, meta);
    (
        StageView::Building(w),
        ActionView::Build {
            directory: plan_directory(p),
            zip: zip_name(dir_name(p.name), p.version),
            manifest: w.manifest,
        },
    )
}

/// The step in which the package file is moved to its place.
pub open spec fn move_step(w: WorkView) -> (StageView, ActionView) {
    (StageView::Moving(w), ActionView::MoveZip(plan_file(w.plan)))
}

/// The note on a version that had not to make room.
pub open spec fn nothing_to_demote(version: Seq<char>) -> Seq<char> {
    "No existing stable version <b>"@ + version + "</b> to demote — published as-is.<br>"@
}

/// The step in which the listed version makes room, after the registry that a text
/// holds.
pub open spec fn demotion_step(s: SettingsView, w: WorkView, registry: Seq<char>) -> (
    StageView,
    ActionView,
) {
    let p = w.plan;
    match json_text(registry) {
        Ok(repo) => if lists(repo, p.name, p.version) {
            (
                StageView::Renaming(
                    w,
                    stored_outcome(registry, s.host, p.name, p.version, p.rc_slot),
                ),
                ActionView::Rename(
                    stored_renames(registry, s.host, p.name, p.version, p.rc_slot),
                ),
            )
        } else {
            move_step(WorkView { note: nothing_to_demote(p.version), ..w })
        },
        Err(m) => give_up(m),
    }
}

/// The entry of the version that is uploaded.
pub open spec fn work_entry(s: SettingsView, w: WorkView) -> JsonView {
    version_entry(
        w.plan.name,
        w.plan.version,
        w.plan.category,
        plan_address(s, w.plan),
        w.manifest,
        w.checksum,
    )
}

/// The registry with the version that is uploaded.
pub open spec fn entered(s: SettingsView, w: WorkView, registry: Seq<char>) -> Result<
    JsonView,
    Fault,
> {
    match json_text(registry) {
        Ok(repo) => if can_publish(repo, w.plan.name) {
            publication(repo, w.plan.name, w.plan.version, work_entry(s, w))
        } else {
            Err(odd_shape())
        },
        Err(m) => Err(Fault::Refused(m)),
    }
}

/// The note on a version that is another one than was asked for.
pub open spec fn bump_note(p: PlanView) -> Seq<char> {
    if p.bumped {
        "Version <b>"@ + p.asked
            + "</b> already existed, so this upload was published as <b>rc candidate "@
            + p.version + "</b> and the old version was kept intact.<br>"@
    } else {
        Seq::empty()
    }
}

/// The answer to an upload that was published.
pub open spec fn success_text(s: SettingsView, w: WorkView, listing: Seq<char>) -> Seq<char> {
    let report = match w.report {
        Some(t) => t,
        None => Seq::empty(),
    };
    w.note + bump_note(w.plan) + "Package <b>"@ + w.plan.name + "</b> v"@ + w.plan.version
        + " uploaded and published.<br><b>Zip:</b> <a href=\""@ + plan_address(s, w.plan) + "\">"@
        + w.plan.name + "</a><br><b>Master repo:</b> <a href=\""@ + index_address(s.host) + "\">"@
        + index_address(s.host) + "</a><br><b>zipSHA256:</b> <code>"@ + w.checksum
        + "</code><br><hr><b>Manifest validation (VCC DLL):</b><br><pre>"@ + report
        + "</pre><b>Repo validation:</b><br><pre>"@ + listing
        + "</pre><b>Category regen:</b><br><pre>"@ + w.regen + "</pre>"@
}

/// The step after an event. One that does not come of the action that the stage
/// waits for ends the upload.
pub open spec fn next_step(s: SettingsView, stage: StageView, event: EventView) -> (
    StageView,
    ActionView,
) {
    match (stage, event) {
        (_, EventView::Failed(reason)) => give_up(reason),
        (StageView::Resolving(r, files), EventView::Registry(text)) => begin_work(
            planned(r, s.categories, text),
            files,
        ),
        (StageView::Ingesting(p), EventView::Manifest(meta)) => build_step(s, p, meta),
        (StageView::Building(w), EventView::Done) => (
            StageView::Validating(w),
            ActionView::ValidateManifest,
        ),
        (StageView::Validating(w), EventView::Report(report)) => {
            let v = WorkView { report: Some(report), ..w };
            if w.plan.demote {
                (StageView::Demoting(v), ActionView::ReadRegistry)
            } else {
                move_step(v)
            }
        },
        (StageView::Demoting(w), EventView::Registry(text)) => demotion_step(s, w, text),
        (StageView::Renaming(w, outcome), EventView::Done) => match outcome {
            Ok((after, note)) => (
                StageView::MakingRoom(WorkView { note, ..w }),
                ActionView::StoreRegistry(after),
            ),
            Err(f) => give_up(fault_text(f)),
        },
        (StageView::MakingRoom(w), EventView::Done) => move_step(w),
        (StageView::Moving(w), EventView::Done) => (StageView::Hashing(w), ActionView::Hash),
        (StageView::Hashing(w), EventView::Checksum(sum)) => (
            StageView::Entering(WorkView { checksum: sum, ..w }),
            ActionView::ReadRegistry,
        ),
        (StageView::Entering(w), EventView::Registry(text)) => match entered(s, w, text) {
            Ok(after) => (StageView::Storing(w), ActionView::StoreRegistry(after)),
            Err(f) => give_up(fault_text(f)),
        },
        (StageView::Storing(w), EventView::Done) => (
            StageView::Regenerating(w),
            ActionView::Regenerate,
        ),
        (StageView::Regenerating(w), EventView::Report(text)) => (
            StageView::Checking(WorkView { regen: text, ..w }),
            ActionView::ValidateListing,
        ),
        (StageView::Checking(w), EventView::Report(text)) => (
            StageView::Over,
            ActionView::Reply(true, success_text(s, w, text)),
        ),
        (_, _) => give_up("the upload is out of step"@),
    }
}

// ---------------------------------------------------------------------------
// Taking the steps
// ---------------------------------------------------------------------------

/// The end of an upload that is not published.
fn end(e: ShopError) -> (r: (Stage, Action))
    ensures
        (r.0@, r.1@) == give_up(fault_text(e@)),
{
    let text = match e {
        ShopError::Refused(t) => t,
        ShopError::Broken(t) => t,
    };
    (Stage::Over, Action::Reply(false, text))
}

/// The directory of the package that a plan publishes.
fn directory_of(p: &Plan) -> (r: String)
    ensures
        r@ == plan_directory(p@),
{
    let dirname = sanitize_dir(p.name.as_str());
    cat3(p.category.as_str(), "/", dirname.as_str())
}

/// The step after the plan of an upload was made.
fn begin(plan: Result<Plan, ShopError>, files: Vec<UploadedFile>) -> (r: (Stage, Action))
    ensures
        (r.0@, r.1@) == begin_work(
            match plan {
                Ok(p) => Ok(p@),
                Err(e) => Err(e@),
            },
            files_view(files@),
        ),
{
    match plan {
        Ok(p) => match check_files(&files) {
            Ok(_) => {
                let directory = directory_of(&p);
                (Stage::Ingesting(p), Action::Ingest { directory })
            },
            Err(e) => end(e),
        },
        Err(e) => end(e),
    }
}

/// Starts an upload.
pub fn start(settings: &Settings, form: UploadForm) -> (r: (Stage, Action))
    ensures
        (r.0@, r.1@) == first_step(settings@, form@),
{
    match check_request(&form, settings.username.as_str(), settings.password.as_str()) {
        Ok(request) => {
            if needs_registry(&request) {
                (Stage::Resolving(request, form.files), Action::ReadRegistry)
            } else {
                begin(plan_upload(request, &settings.categories, ""), form.files)
            }
        },
        Err(e) => end(e),
    }
}

/// The address under which a plan publishes its package file.
fn address_of(settings: &Settings, p: &Plan) -> (r: String)
    ensures
        r@ == plan_address(settings@, p@),
{
    let dirname = sanitize_dir(p.name.as_str());
    zip_url(settings.host.as_str(), p.category.as_str(), dirname.as_str(), p.version.as_str())
}

/// The step in which the package file is built.
fn build(settings: &Settings, p: Plan, meta: Option<Json>) -> (r: (Stage, Action))
    ensures
        (r.0@, r.1@) == build_step(settings@, p@, seen(meta)),
{
    let dirname = sanitize_dir(p.name.as_str());
    let url = address_of(settings, &p);
    let internal = match &meta {
        Some(m) => Some(m),
        None => None,
    };
    assert(seen_ref(internal) == seen(meta));
    let manifest = build_pkg_json(
        p.name.as_str(),
        p.version.as_str(),
        p.category.as_str(),
        url.as_str(),
        internal,
        settings.author.as_str(),
    );
    let directory = directory_of(&p);
    let zip = zip_file_name(dirname.as_str(), p.version.as_str());
    let copy = manifest.clone();
    let w = Work {
        plan: p,
        manifest,
        report: None,
        note: String::new(),
        checksum: String::new(),
        regen: String::new(),
    };
    assert(w@ == new_work(settings@, p@, seen(meta)));
    (Stage::Building(w), Action::Build { directory, zip, manifest: copy })
}

/// The step in which the package file is moved to its place.
fn move_zip(w: Work) -> (r: (Stage, Action))
    ensures
        (r.0@, r.1@) == move_step(w@),
{
    let dirname = sanitize_dir(w.plan.name.as_str());
    let file = zip_path(w.plan.category.as_str(), dirname.as_str(), w.plan.version.as_str());
    (Stage::Moving(w), Action::MoveZip(file))
}

/// The step in which the listed version makes room.
fn make_room(settings: &Settings, w: Work, registry: &str) -> (r: (Stage, Action))
    ensures
        (r.0@, r.1@) == demotion_step(settings@, w@, registry@),
{
    match version_exists(registry, w.plan.name.as_str(), w.plan.version.as_str()) {
        Ok(true) => {
            let d = demote_existing_version(
                registry,
                settings.host.as_str(),
                w.plan.name.as_str(),
                w.plan.version.as_str(),
                w.plan.rc_slot,
            );
            (Stage::Renaming(w, d.outcome), Action::Rename(d.renames))
        },
        Ok(false) => {
            let mut w = w;
            w.note = cat3(
                "No existing stable version <b>",
                w.plan.version.as_str(),
                "</b> to demote — published as-is.<br>",
            );
            move_zip(w)
        },
        Err(e) => end(e),
    }
}

/// The step in which the version is entered into the registry.
fn enter(settings: &Settings, w: Work, registry: &str) -> (r: (Stage, Action))
    ensures
        (r.0@, r.1@) == (match entered(settings@, w@, registry@) {
            Ok(after) => (StageView::Storing(w@), ActionView::StoreRegistry(after)),
            Err(f) => give_up(fault_text(f)),
        }),
{
    let url = address_of(settings, &w.plan);
    let entry = build_version_entry(
        w.plan.name.as_str(),
        w.plan.version.as_str(),
        w.plan.category.as_str(),
        url.as_str(),
        &w.manifest,
        w.checksum.as_str(),
    );
    match update_master_repo(registry, w.plan.name.as_str(), w.plan.version.as_str(), entry) {
        Ok(after) => (Stage::Storing(w), Action::StoreRegistry(after)),
        Err(e) => end(e),
    }
}

/// The answer to an upload that was published.
fn success(settings: &Settings, w: &Work, listing: &str) -> (r: String)
    ensures
        r@ == success_text(settings@, w@, listing@),
{
    let url = address_of(settings, &w.plan);
    let index = index_url(settings.host.as_str());
    let name = w.plan.name.as_str();
    let version = w.plan.version.as_str();
    let report = match &w.report {
        Some(t) => t.as_str(),
        None => "",
    };
    proof {
        reveal_strlit("");
        assert(""@ =~= Seq::<char>::empty());
    }
    let bump = if w.plan.bumped {
        cat5(
            "Version <b>",
            w.plan.asked.as_str(),
            "</b> already existed, so this upload was published as <b>rc candidate ",
            version,
            "</b> and the old version was kept intact.<br>",
        )
    } else {
        String::new()
    };
    assert(bump@ == bump_note(w.plan@));
    let mut out = cat3(w.note.as_str(), bump.as_str(), "Package <b>");
    out.append(name);
    out.append("</b> v");
    out.append(version);
    out.append(" uploaded and published.<br><b>Zip:</b> <a href=\"");
    out.append(url.as_str());
    out.append("\">");
    out.append(name);
    out.append("</a><br><b>Master repo:</b> <a href=\"");
    out.append(index.as_str());
    out.append("\">");
    out.append(index.as_str());
    out.append("</a><br><b>zipSHA256:</b> <code>");
    out.append(w.checksum.as_str());
    out.append("</code><br><hr><b>Manifest validation (VCC DLL):</b><br><pre>");
    out.append(report);
    out.append("</pre><b>Repo validation:</b><br><pre>");
    out.append(listing);
    out.append("</pre><b>Category regen:</b><br><pre>");
    out.append(w.regen.as_str());
    out.append("</pre>");
    out
}

/// Takes the next step of an upload.
pub fn advance(settings: &Settings, stage: Stage, event: Event) -> (r: (Stage, Action))
    ensures
        (r.0@, r.1@) == next_step(settings@, stage@, event@),
{
    match (stage, event) {
        (_, Event::Failed(reason)) => (Stage::Over, Action::Reply(false, reason)),
        (Stage::Resolving(request, files), Event::Registry(text)) => begin(
            plan_upload(request, &settings.categories, text.as_str()),
            files,
        ),
        (Stage::Ingesting(p), Event::Manifest(meta)) => build(settings, p, meta),
        (Stage::Building(w), Event::Done) => (Stage::Validating(w), Action::ValidateManifest),
        (Stage::Validating(w), Event::Report(report)) => {
            let mut w = w;
            w.report = Some(report);
            if w.plan.demote {
                (Stage::Demoting(w), Action::ReadRegistry)
            } else {
                move_zip(w)
            }
        },
        (Stage::Demoting(w), Event::Registry(text)) => make_room(settings, w, text.as_str()),
        (Stage::Renaming(w, outcome), Event::Done) => match outcome {
            Ok((after, note)) => {
                let mut w = w;
                w.note = note;
                (Stage::MakingRoom(w), Action::StoreRegistry(after))
            },
            Err(e) => end(e),
        },
        (Stage::MakingRoom(w), Event::Done) => move_zip(w),
        (Stage::Moving(w), Event::Done) => (Stage::Hashing(w), Action::Hash),
        (Stage::Hashing(w), Event::Checksum(sum)) => {
            let mut w = w;
            w.checksum = sum;
            (Stage::Entering(w), Action::ReadRegistry)
        },
        (Stage::Entering(w), Event::Registry(text)) => enter(settings, w, text.as_str()),
        (Stage::Storing(w), Event::Done) => (Stage::Regenerating(w), Action::Regenerate),
        (Stage::Regenerating(w), Event::Report(text)) => {
            let mut w = w;
            w.regen = text;
            (Stage::Checking(w), Action::ValidateListing)
        },
        (Stage::Checking(w), Event::Report(text)) => {
            let message = success(settings, &w, text.as_str());
            (Stage::Over, Action::Reply(true, message))
        },
        (_, _) => end(refused("the upload is out of step")),
    }
}

// ---------------------------------------------------------------------------
// Whole uploads
// ---------------------------------------------------------------------------

/// How far an upload has come after these events, and the actions that it asked for:
/// the first one at once, and one after each event.
pub open spec fn run(s: SettingsView, form: FormView, events: Seq<EventView>) -> (
    StageView,
    Seq<ActionView>,
)
    decreases events.len(),
{
    if events.len() == 0 {
        (first_step(s, form).0, seq![first_step(s, form).1])
    } else {
        let before = run(s, form, events.drop_last());
        let step = next_step(s, before.0, events.last());
        (step.0, before.1.push(step.1))
    }
}

/// Whether an action changes what the shop offers.
pub open spec fn touches_shop(a: ActionView) -> bool {
    a is Rename || a is StoreRegistry || a is MoveZip
}

/// Whether the validator accepted the manifest: it was asked to, and gave a report.
pub open spec fn accepted(actions: Seq<ActionView>, events: Seq<EventView>, i: int) -> bool {
    0 <= i < events.len() && actions[i] is ValidateManifest && events[i] is Report
}

/// The work of a stage that comes after the validation of the manifest.
pub open spec fn validated_work(stage: StageView) -> Option<WorkView> {
    match stage {
        StageView::Demoting(w) => Some(w),
        StageView::Renaming(w, _) => Some(w),
        StageView::MakingRoom(w) => Some(w),
        StageView::Moving(w) => Some(w),
        StageView::Hashing(w) => Some(w),
        StageView::Entering(w) => Some(w),
        StageView::Storing(w) => Some(w),
        StageView::Regenerating(w) => Some(w),
        StageView::Checking(w) => Some(w),
        _ => None,
    }
}

/// The work of a stage that comes after the package file was moved to its place, or
/// in which it is moved there.
pub open spec fn moved_work(stage: StageView) -> Option<WorkView> {
    match stage {
        StageView::Moving(w) => Some(w),
        StageView::Hashing(w) => Some(w),
        StageView::Entering(w) => Some(w),
        StageView::Storing(w) => Some(w),
        StageView::Regenerating(w) => Some(w),
        StageView::Checking(w) => Some(w),
        _ => None,
    }
}

/// The work of a stage that comes after the version was entered into the registry, or
/// in which the registry is stored.
pub open spec fn stored_work(stage: StageView) -> Option<WorkView> {
    match stage {
        StageView::Storing(w) => Some(w),
        StageView::Regenerating(w) => Some(w),
        StageView::Checking(w) => Some(w),
        _ => None,
    }
}

/// An action was asked for, and a program that succeeded reported on it.
pub open spec fn answered(
    actions: Seq<ActionView>,
    events: Seq<EventView>,
    action: ActionView,
) -> bool {
    exists|i: int| #[trigger] is_answered(actions, events, action, i)
}

/// A program that succeeded reported on this action.
pub open spec fn is_answered(
    actions: Seq<ActionView>,
    events: Seq<EventView>,
    action: ActionView,
    i: int,
) -> bool {
    0 <= i < events.len() && i < actions.len() && actions[i] == action && events[i] is Report
}

/// The plan that was made of a form: with the first event, where the registry has a say
/// in the request.
pub open spec fn plan_made(s: SettingsView, form: FormView, events: Seq<EventView>) -> Option<
    PlanView,
> {
    match request_of(form, s.username, s.password) {
        Ok(r) => {
            let text = if !asks_registry(r) {
                Some(Seq::<char>::empty())
            } else if events.len() > 0 {
                match events[0] {
                    EventView::Registry(t) => Some(t),
                    _ => None,
                }
            } else {
                None
            };
            match text {
                Some(t) => match planned(r, s.categories, t) {
                    Ok(p) => Some(p),
                    Err(_) => None,
                },
                None => None,
            }
        },
        Err(_) => None,
    }
}

/// The plan of a stage.
pub open spec fn stage_plan(stage: StageView) -> Option<PlanView> {
    match stage {
        StageView::Ingesting(p) => Some(p),
        StageView::Building(w) => Some(w.plan),
        StageView::Validating(w) => Some(w.plan),
        _ => match validated_work(stage) {
            Some(w) => Some(w.plan),
            None => None,
        },
    }
}

/// A registry was stored that lists the version of a plan, in the category of the plan,
/// and leads from it to the file of the plan.
pub open spec fn is_listing(
    s: SettingsView,
    actions: Seq<ActionView>,
    p: PlanView,
    after: JsonView,
) -> bool {
    &&& actions.contains(ActionView::StoreRegistry(after))
    &&& lists(after, p.name, p.version)
    &&& versions(after, p.name)->0[p.version].get("category"@) == Some(JsonView::Text(p.category))
    &&& !plan_address(s, p).contains('?') ==> file_of_version(after, s.host, p.name, p.version)
        == Ok::<Seq<char>, Fault>(plan_file(p))
}

/// A registry was stored that lists the version of a plan.
pub open spec fn is_listed(s: SettingsView, actions: Seq<ActionView>, p: PlanView) -> bool {
    exists|after: JsonView| #[trigger] is_listing(s, actions, p, after)
}

/// The plan that was made of the form was carried out: the uploaded files were taken
/// apart into the directory of the plan, the package file was moved to the place of the
/// plan, and a registry was stored that lists its version.
pub open spec fn is_published(
    s: SettingsView,
    form: FormView,
    actions: Seq<ActionView>,
    events: Seq<EventView>,
) -> bool {
    plan_made(s, form, events) matches Some(p) && actions.contains(
        ActionView::Ingest { directory: plan_directory(p) },
    ) && actions.contains(ActionView::MoveZip(plan_file(p))) && is_listed(s, actions, p)
}

// Single steps.

/// A step keeps the plan, or makes it.
proof fn lemma_step_plan(s: SettingsView, stage: StageView, event: EventView)
    ensures
        next_step(s, stage, event).0 !is Resolving,
        stage_plan(next_step(s, stage, event).0) matches Some(p) ==> {
            ||| stage_plan(stage) == Some(p)
            ||| stage matches StageView::Resolving(r, _) && event matches EventView::Registry(t)
                && planned(r, s.categories, t) matches Ok(q) && q == p
        },
{
}

/// A step has a plan only from there, or takes the uploaded files apart itself.
proof fn lemma_step_ingested(s: SettingsView, stage: StageView, event: EventView)
    ensures
        stage_plan(next_step(s, stage, event).0) matches Some(p) ==> {
            ||| stage_plan(stage) == Some(p)
            ||| next_step(s, stage, event).1 == (ActionView::Ingest {
                directory: plan_directory(p),
            })
        },
{
}

/// A step comes behind the validation only from there, or with the report on it.
proof fn lemma_step_validated(s: SettingsView, stage: StageView, event: EventView)
    ensures
        validated_work(next_step(s, stage, event).0) is Some ==> validated_work(stage) is Some || (
        stage is Validating && event is Report),
        touches_shop(next_step(s, stage, event).1) ==> validated_work(
            next_step(s, stage, event).0,
        ) is Some,
        next_step(s, stage, event).0 is Validating ==> next_step(
            s,
            stage,
            event,
        ).1 is ValidateManifest,
{
}

/// A step comes behind the move only from there, or moves the file itself.
proof fn lemma_step_moved(s: SettingsView, stage: StageView, event: EventView)
    ensures
        moved_work(next_step(s, stage, event).0) matches Some(w) ==> {
            ||| moved_work(stage) matches Some(v) && v.plan == w.plan
            ||| next_step(s, stage, event).1 == ActionView::MoveZip(plan_file(w.plan))
        },
{
}

/// A step comes behind the entry into the registry only from there, or enters the
/// version itself.
proof fn lemma_step_stored(s: SettingsView, stage: StageView, event: EventView)
    ensures
        stored_work(next_step(s, stage, event).0) matches Some(w) ==> {
            ||| stored_work(stage) matches Some(v) && v.plan == w.plan
            ||| event matches EventView::Registry(t) && stage == StageView::Entering(w) && (
            entered(s, w, t) matches Ok(after) && next_step(s, stage, event).1
                == ActionView::StoreRegistry(after))
        },
{
}

/// The steps at the end come one after another.
proof fn lemma_step_last(s: SettingsView, stage: StageView, event: EventView)
    ensures
        next_step(s, stage, event).0 is Regenerating ==> next_step(
            s,
            stage,
            event,
        ).1 is Regenerate,
        next_step(s, stage, event).0 is Checking ==> stage is Regenerating && event is Report
            && next_step(s, stage, event).1 is ValidateListing,
        next_step(s, stage, event).1 matches ActionView::Reply(ok, _) ==> (ok ==> stage is Checking
            && event is Report),
{
}

// Whole runs.

/// There is one action more than there are events, and an event more adds one action.
proof fn lemma_run(s: SettingsView, form: FormView, events: Seq<EventView>)
    ensures
        run(s, form, events).1.len() == events.len() + 1,
        events.len() > 0 ==> {
            let before = run(s, form, events.drop_last());
            let step = next_step(s, before.0, events.last());
            &&& run(s, form, events) == (step.0, before.1.push(step.1))
            &&& run(s, form, events).1.last() == step.1
            &&& before.1.len() == events.len()
            &&& forall|a: ActionView| #[trigger]
                before.1.contains(a) ==> run(s, form, events).1.contains(a)
            &&& run(s, form, events).1.contains(step.1)
        },
    decreases events.len(),
{
    if events.len() > 0 {
        lemma_run(s, form, events.drop_last());
        let acts = run(s, form, events.drop_last()).1;
        let actions = run(s, form, events).1;
        assert forall|a: ActionView| #[trigger] acts.contains(a) implies actions.contains(a) by {
            let i = choose|i: int| 0 <= i < acts.len() && acts[i] == a;
            assert(actions[i] == a);
        }
        assert(actions[acts.len() as int] == actions.last());
    }
}

/// The plan that an upload follows is the one that was made of its form.
proof fn lemma_run_plan(s: SettingsView, form: FormView, events: Seq<EventView>)
    ensures
        run(s, form, events).0 matches StageView::Resolving(r, _) ==> events.len() == 0
            && asks_registry(r) && request_of(form, s.username, s.password) == Ok::<
            RequestView,
            Fault,
        >(r),
        stage_plan(run(s, form, events).0) matches Some(p) ==> plan_made(s, form, events)
            == Some(p),
    decreases events.len(),
{
    if events.len() > 0 {
        let head = events.drop_last();
        let (st, acts) = run(s, form, head);
        lemma_run_plan(s, form, head);
        lemma_step_plan(s, st, events.last());
        lemma_plan_stays(s, form, events);
        if st is Resolving {
            assert(events.last() == events[0]);
        }
    }
}

/// An upload that has a plan has taken the uploaded files apart into its directory.
proof fn lemma_run_ingested(s: SettingsView, form: FormView, events: Seq<EventView>)
    ensures
        stage_plan(run(s, form, events).0) matches Some(p) ==> run(s, form, events).1.contains(
            ActionView::Ingest { directory: plan_directory(p) },
        ),
    decreases events.len(),
{
    lemma_run(s, form, events);
    if events.len() > 0 {
        lemma_run_ingested(s, form, events.drop_last());
        lemma_step_ingested(s, run(s, form, events.drop_last()).0, events.last());
    } else {
        let actions = run(s, form, events).1;
        assert(actions[0] == first_step(s, form).1);
    }
}

/// The plan that was made of a form stays while the upload goes on.
proof fn lemma_plan_stays(s: SettingsView, form: FormView, events: Seq<EventView>)
    requires
        events.len() > 0,
    ensures
        plan_made(s, form, events.drop_last()) is Some ==> plan_made(s, form, events)
            == plan_made(s, form, events.drop_last()),
{
    if events.len() > 1 {
        assert(events.drop_last()[0] == events[0]);
    }
}

/// An upload that comes behind the validation was accepted by the validator.
proof fn lemma_run_validated(s: SettingsView, form: FormView, events: Seq<EventView>)
    ensures
        run(s, form, events).0 is Validating ==> run(s, form, events).1.last() is ValidateManifest,
        touches_shop(run(s, form, events).1.last()) ==> validated_work(
            run(s, form, events).0,
        ) is Some,
        validated_work(run(s, form, events).0) is Some ==> exists|i: int|
            accepted(run(s, form, events).1, events, i),
    decreases events.len(),
{
    lemma_run(s, form, events);
    if events.len() > 0 {
        let head = events.drop_last();
        let (st, acts) = run(s, form, head);
        let (stage, actions) = run(s, form, events);
        lemma_run_validated(s, form, head);
        lemma_step_validated(s, st, events.last());
        if validated_work(stage) is Some {
            if validated_work(st) is Some {
                let i = choose|i: int| accepted(acts, head, i);
                assert(actions[i] == acts[i] && events[i] == head[i]);
                assert(accepted(actions, events, i));
            } else {
                let n = acts.len() - 1;
                assert(actions[n] == acts.last());
                assert(events[n] == events.last());
                assert(accepted(actions, events, n));
            }
        }
    }
}

/// An upload that comes behind the move has moved its package file.
proof fn lemma_run_moved(s: SettingsView, form: FormView, events: Seq<EventView>)
    ensures
        moved_work(run(s, form, events).0) matches Some(w) ==> run(s, form, events).1.contains(
            ActionView::MoveZip(plan_file(w.plan)),
        ),
    decreases events.len(),
{
    lemma_run(s, form, events);
    if events.len() > 0 {
        lemma_run_moved(s, form, events.drop_last());
        lemma_step_moved(s, run(s, form, events.drop_last()).0, events.last());
    }
}

/// The registry into which a version was entered lists it.
proof fn lemma_entered(
    s: SettingsView,
    w: WorkView,
    text: Seq<char>,
    actions: Seq<ActionView>,
)
    requires
        entered(s, w, text) is Ok,
        actions.contains(ActionView::StoreRegistry(entered(s, w, text)->Ok_0)),
    ensures
        is_listed(s, actions, w.plan),
{
    let repo = json_text(text)->Ok_0;
    let entry = work_entry(s, w);
    let after = published(repo, w.plan.name, w.plan.version, entry);
    law_publication(repo, w.plan.name, w.plan.version, entry);
    lemma_entry_category(
        w.plan.name,
        w.plan.version,
        w.plan.category,
        plan_address(s, w.plan),
        w.manifest,
        w.checksum,
    );
    if !plan_address(s, w.plan).contains('?') {
        law_published_file_is_found(
            repo,
            s.host,
            w.plan.name,
            w.plan.version,
            w.plan.category,
            dir_name(w.plan.name),
            w.manifest,
            w.checksum,
        );
    }
    assert(is_listing(s, actions, w.plan, after));
}

/// An upload that comes behind the entry into the registry is listed.
proof fn lemma_run_stored(s: SettingsView, form: FormView, events: Seq<EventView>)
    ensures
        stored_work(run(s, form, events).0) matches Some(w) ==> is_listed(
            s,
            run(s, form, events).1,
            w.plan,
        ),
    decreases events.len(),
{
    lemma_run(s, form, events);
    if events.len() > 0 {
        let (st, acts) = run(s, form, events.drop_last());
        let (stage, actions) = run(s, form, events);
        lemma_run_stored(s, form, events.drop_last());
        lemma_step_stored(s, st, events.last());
        if stored_work(stage) is Some {
            let w = stored_work(stage)->0;
            if stored_work(st) is Some {
                let after = choose|after: JsonView| #[trigger] is_listing(s, acts, w.plan, after);
                assert(is_listing(s, actions, w.plan, after));
            } else {
                lemma_entered(s, w, events.last()->Registry_0, actions);
            }
        }
    }
}

/// An upload that has its published listing validated has had the listings generated.
proof fn lemma_run_last(s: SettingsView, form: FormView, events: Seq<EventView>)
    ensures
        run(s, form, events).0 is Regenerating ==> run(s, form, events).1.last() is Regenerate,
        run(s, form, events).0 is Checking ==> {
            &&& run(s, form, events).1.last() is ValidateListing
            &&& answered(run(s, form, events).1, events, ActionView::Regenerate)
        },
    decreases events.len(),
{
    lemma_run(s, form, events);
    if events.len() > 0 {
        let (st, acts) = run(s, form, events.drop_last());
        let (stage, actions) = run(s, form, events);
        lemma_run_last(s, form, events.drop_last());
        lemma_step_last(s, st, events.last());
        if stage is Checking {
            let n = acts.len() - 1;
            assert(actions[n] == acts.last());
            assert(events[n] == events.last());
            assert(is_answered(actions, events, ActionView::Regenerate, n));
        }
    }
}

/// Nothing that the shop offers changes before the validator has accepted the
/// manifest: no file is renamed or moved, and no registry stored.
pub proof fn law_nothing_changes_before_validation(
    s: SettingsView,
    form: FormView,
    events: Seq<EventView>,
    i: int,
)
    requires
        0 <= i < run(s, form, events).1.len(),
        touches_shop(run(s, form, events).1[i]),
    ensures
        exists|j: int| j < i && accepted(run(s, form, events).1, events, j),
    decreases events.len(),
{
    let (stage, actions) = run(s, form, events);
    lemma_run(s, form, events);
    lemma_run_validated(s, form, events);
    if i < actions.len() - 1 {
        let head = events.drop_last();
        let acts = run(s, form, head).1;
        assert(acts[i] == actions[i]);
        law_nothing_changes_before_validation(s, form, head, i);
        let j = choose|j: int| j < i && accepted(acts, head, j);
        assert(actions[j] == acts[j] && events[j] == head[j]);
        assert(accepted(actions, events, j));
    } else {
        assert(actions[i] == actions.last());
        let j = choose|j: int| accepted(actions, events, j);
        assert(accepted(actions, events, j));
    }
}

/// An upload is reported as published only where the plan that was made of its form was
/// carried out: the uploaded files were taken apart into the directory that the name and
/// the category of the plan give, the package file was moved to the place that its
/// version gives it there, and a registry was stored that lists the version of the
/// package in that category, and leads from it to that file. (An address with a question
/// mark would be cut off there.)
pub proof fn law_success_means_published(s: SettingsView, form: FormView, events: Seq<EventView>)
    requires
        run(s, form, events).1.last() matches ActionView::Reply(ok, _) && ok,
    ensures
        is_published(s, form, run(s, form, events).1, events),
{
    lemma_run(s, form, events);
    let head = events.drop_last();
    let (st, acts) = run(s, form, head);
    let actions = run(s, form, events).1;
    lemma_step_last(s, st, events.last());
    lemma_run_plan(s, form, head);
    lemma_run_ingested(s, form, head);
    lemma_run_moved(s, form, head);
    lemma_run_stored(s, form, head);
    lemma_plan_stays(s, form, events);
    let p = st->Checking_0.plan;
    let after = choose|after: JsonView| #[trigger] is_listing(s, acts, p, after);
    assert(is_listing(s, actions, p, after));
}

/// An upload is reported as published only where the listings were generated anew and
/// the published listing was validated.
pub proof fn law_success_means_regenerated(
    s: SettingsView,
    form: FormView,
    events: Seq<EventView>,
)
    requires
        run(s, form, events).1.last() matches ActionView::Reply(ok, _) && ok,
    ensures
        answered(run(s, form, events).1, events, ActionView::Regenerate),
        answered(run(s, form, events).1, events, ActionView::ValidateListing),
{
    lemma_run(s, form, events);
    let head = events.drop_last();
    let (st, acts) = run(s, form, head);
    let actions = run(s, form, events).1;
    lemma_step_last(s, st, events.last());
    lemma_run_last(s, form, head);
    let i = choose|i: int| #[trigger] is_answered(acts, head, ActionView::Regenerate, i);
    assert(actions[i] == acts[i] && events[i] == head[i]);
    assert(is_answered(actions, events, ActionView::Regenerate, i));
    let n = acts.len() - 1;
    assert(actions[n] == acts.last());
    assert(events[n] == events.last());
    assert(is_answered(actions, events, ActionView::ValidateListing, n));
}

/// How many events an upload can wait for.
pub open spec fn steps_left(stage: StageView) -> nat {
    match stage {
        StageView::Resolving(_, _) => 13,
        StageView::Ingesting(_) => 12,
        StageView::Building(_) => 11,
        StageView::Validating(_) => 10,
        StageView::Demoting(_) => 9,
        StageView::Renaming(_, _) => 8,
        StageView::MakingRoom(_) => 7,
        StageView::Moving(_) => 6,
        StageView::Hashing(_) => 5,
        StageView::Entering(_) => 4,
        StageView::Storing(_) => 3,
        StageView::Regenerating(_) => 2,
        StageView::Checking(_) => 1,
        StageView::Over => 0,
    }
}

/// Every upload is answered: each event brings it nearer to its end, it is over
/// exactly when it has been answered, and an action that fails is answered with the
/// reason.
pub proof fn law_every_upload_is_answered(
    s: SettingsView,
    form: FormView,
    stage: StageView,
    event: EventView,
)
    ensures
        steps_left(first_step(s, form).0) <= 13,
        stage !is Over ==> steps_left(next_step(s, stage, event).0) < steps_left(stage),
        first_step(s, form).0 is Over <==> first_step(s, form).1 is Reply,
        next_step(s, stage, event).0 is Over <==> next_step(s, stage, event).1 is Reply,
        event matches EventView::Failed(reason) ==> next_step(s, stage, event).1
            == ActionView::Reply(false, reason),
{
}

/// An upload without the credentials of the shop is answered at once, with the same
/// words whatever else it holds, and asks for nothing.
pub proof fn law_intruders_are_turned_away(s: SettingsView, form: FormView)
    requires
        !authentic(form, s.username, s.password),
    ensures
        first_step(s, form) == give_up("authentication failed (wrong username/password)"@),
{
}

// ---------------------------------------------------------------------------
// What whole uploads come to
// ---------------------------------------------------------------------------

/// The registry that was read with an event.
pub open spec fn registry_at(events: Seq<EventView>, i: int) -> Option<JsonView> {
    if 0 <= i < events.len() {
        match events[i] {
            EventView::Registry(text) => match json_text(text) {
                Ok(repo) => Some(repo),
                Err(_) => None,
            },
            _ => None,
        }
    } else {
        None
    }
}

/// The plan that was made of a form says what the form says: the name, as a package id,
/// the version, the category where one is written, whether a listed version is to make
/// room, and the candidate number `n` where that is written in digits. The version that
/// is published is the one asked for, but where it is listed and no room is asked for.
pub proof fn law_upload_follows_its_form(
    s: SettingsView,
    form: FormView,
    events: Seq<EventView>,
    n: u64,
)
    requires
        plan_made(s, form, events) is Some,
    ensures
        ({
            let p = plan_made(s, form, events)->0;
            &&& form.username == Some(s.username)
            &&& form.password == Some(s.password)
            &&& form.name is Some
            &&& p.name == replaced(lowercase(trimmed(form.name->0)), ' ', '.')
            &&& valid_id(p.name)
            &&& form.version is Some
            &&& p.asked == trimmed(form.version->0)
            &&& form.category matches Some(c) ==> p.category == c
            &&& s.categories.contains(p.category)
            &&& p.demote <==> (form.demote matches Some(d) && (ascii_lowercase(d) == "1"@
                || ascii_lowercase(d) == "true"@ || ascii_lowercase(d) == "on"@ || ascii_lowercase(d)
                == "yes"@))
            &&& !is_filled(form.rc_slot) ==> p.rc_slot is None
            &&& (form.rc_slot matches Some(t) && trimmed(t) == decimal(n as nat)) ==> p.rc_slot
                == Some(n)
            &&& p.demote || !p.bumped ==> p.version == p.asked
            &&& p.bumped ==> (registry_at(events, 0) matches Some(repo) && lists(
                repo,
                p.name,
                p.asked,
            ) && !lists(repo, p.name, p.version))
            &&& form.category is None ==> (registry_at(events, 0) matches Some(repo)
                && match category(repo, p.name) {
                Some(c) => p.category == c,
                None => p.category == "Misc"@,
            })
        }),
{
    let r = request_of(form, s.username, s.password)->Ok_0;
    let text = if asks_registry(r) {
        events[0]->Registry_0
    } else {
        Seq::<char>::empty()
    };
    law_request_says_what_the_form_says(form, s.username, s.password, n);
    law_plan_follows_the_request(r, s.categories, text);
    law_plan_takes_the_next_candidate(r, s.categories, text, 0);
    law_plans_are_valid(form, s.username, s.password, s.categories, text);
    if !r.demote {
        law_plans_take_a_free_version(r, s.categories, json_text(text)->Ok_0);
    }
}

/// The plan that an upload follows names a package by its id, which is also the name of
/// its directory.
proof fn lemma_plan_directory(s: SettingsView, form: FormView, events: Seq<EventView>)
    requires
        plan_made(s, form, events) is Some,
    ensures
        ({
            let p = plan_made(s, form, events)->0;
            &&& dir_name(p.name) == p.name
            &&& valid_id(p.name)
        }),
{
    law_upload_follows_its_form(s, form, events, 0);
    law_dir_name_of_id(plan_made(s, form, events)->0.name);
}

/// The plan stays what it was after fewer events.
proof fn lemma_plan_before(s: SettingsView, form: FormView, events: Seq<EventView>, n: int)
    requires
        0 <= n <= events.len(),
        plan_made(s, form, events.take(n)) is Some,
    ensures
        plan_made(s, form, events) == plan_made(s, form, events.take(n)),
    decreases events.len(),
{
    if n == events.len() {
        assert(events.take(n) =~= events);
    } else {
        assert(events.drop_last().take(n) =~= events.take(n));
        lemma_plan_before(s, form, events.drop_last(), n);
        lemma_plan_stays(s, form, events);
    }
}

/// The first actions of an upload are those of fewer events.
#[verifier::rlimit(30)]
proof fn lemma_run_before(s: SettingsView, form: FormView, events: Seq<EventView>, n: int)
    requires
        0 <= n <= events.len(),
    ensures
        run(s, form, events).1.len() == events.len() + 1,
        run(s, form, events.take(n)).1 == run(s, form, events).1.take(n + 1),
        run(s, form, events.take(n)).1.last() == run(s, form, events).1[n],
    decreases events.len(),
{
    lemma_run(s, form, events);
    if n == events.len() {
        assert(events.take(n) =~= events);
        assert(run(s, form, events).1.take(n + 1) =~= run(s, form, events).1);
    } else {
        let head = events.drop_last();
        assert(head.take(n) =~= events.take(n));
        lemma_run_before(s, form, head, n);
        assert(run(s, form, head).1.take(n + 1) =~= run(s, form, events).1.take(n + 1));
    }
}

/// The step that led to an action of an upload: the stage before, and the event.
proof fn lemma_step_before(s: SettingsView, form: FormView, events: Seq<EventView>, i: int)
    requires
        0 < i <= events.len(),
    ensures
        run(s, form, events).1.len() == events.len() + 1,
        next_step(s, run(s, form, events.take(i - 1)).0, events[i - 1]) == (
            run(s, form, events.take(i)).0,
            run(s, form, events).1[i],
        ),
        run(s, form, events.take(i - 1)).1.last() == run(s, form, events).1[i - 1],
{
    let up = events.take(i);
    lemma_run_before(s, form, events, i);
    lemma_run_before(s, form, events, i - 1);
    lemma_run(s, form, up);
    assert(up.drop_last() =~= events.take(i - 1));
    assert(up.last() == events[i - 1]);
}

/// The files of an upload go where its plan says: what is taken apart goes into the
/// directory of the package in its category, and the package file is moved there, under
/// the name of the package and the version.
#[verifier::rlimit(30)]
pub proof fn law_files_go_where_planned(
    s: SettingsView,
    form: FormView,
    events: Seq<EventView>,
    i: int,
)
    requires
        0 <= i < run(s, form, events).1.len(),
        run(s, form, events).1[i] is Ingest || run(s, form, events).1[i] is MoveZip,
    ensures
        plan_made(s, form, events) matches Some(p) && (match run(s, form, events).1[i] {
            ActionView::Ingest { directory } => directory == p.category + "/"@ + p.name,
            ActionView::MoveZip(file) => file == p.category + "/"@ + p.name + "/"@ + (p.name + "-"@
                + p.version + ".zip"@),
            _ => true,
        }),
{
    lemma_run(s, form, events);
    let up = events.take(i);
    lemma_run_before(s, form, events, i);
    lemma_run_plan(s, form, up);
    if i > 0 {
        lemma_step_before(s, form, events, i);
    }
    lemma_plan_before(s, form, events, i);
    lemma_plan_directory(s, form, events);
}

/// Whether an action builds the package of a plan: the manifest names the package, the
/// version, the category and the address under which the plan publishes, and says of the
/// package what the upload says of it; the package file has the name of the package and
/// the version, and the manifest lies in the directory of the package.
pub open spec fn builds_as_planned(
    s: SettingsView,
    p: PlanView,
    meta: Option<JsonView>,
    action: ActionView,
) -> bool {
    action matches ActionView::Build { directory, zip, manifest } && {
        &&& manifest.get("name"@) == Some(JsonView::Text(p.name))
        &&& manifest.get("version"@) == Some(JsonView::Text(p.version))
        &&& manifest.get("category"@) == Some(JsonView::Text(p.category))
        &&& manifest.get("url"@) == Some(
            JsonView::Text(
                without_end_slashes(s.host) + "/"@ + (p.category + "/"@ + p.name + "/"@ + (p.name
                    + "-"@ + p.version + ".zip"@)),
            ),
        )
        &&& says_of_itself(manifest, meta, p.name, s.author)
        &&& directory == p.category + "/"@ + p.name
        &&& zip == p.name + "-"@ + p.version + ".zip"@
    }
}

/// Every package file that an upload has built is that of its plan, with what the
/// uploaded files say of themselves.
#[verifier::rlimit(30)]
pub proof fn law_package_is_built_as_planned(
    s: SettingsView,
    form: FormView,
    events: Seq<EventView>,
    i: int,
)
    requires
        0 <= i < run(s, form, events).1.len(),
        run(s, form, events).1[i] is Build,
    ensures
        i > 0,
        run(s, form, events).1[i - 1] is Ingest,
        plan_made(s, form, events) matches Some(p) && (
        events[i - 1] matches EventView::Manifest(meta) && builds_as_planned(
            s,
            p,
            meta,
            run(s, form, events).1[i],
        )),
{
    lemma_run(s, form, events);
    lemma_run_before(s, form, events, i);
    assert(i > 0) by {
        if i == 0 {
            assert(events.take(0) =~= Seq::<EventView>::empty());
            assert(run(s, form, events).1[0] == first_step(s, form).1);
        }
    }
    lemma_step_before(s, form, events, i);
    let st = run(s, form, events.take(i - 1)).0;
    let p = st->Ingesting_0;
    let meta = events[i - 1]->Manifest_0;
    lemma_run_plan(s, form, events.take(i - 1));
    lemma_plan_before(s, form, events, i - 1);
    lemma_plan_directory(s, form, events);
    lemma_ingesting(s, form, events.take(i - 1));
    law_manifest_is_stamped(p.name, p.version, p.category, plan_address(s, p), meta, s.author);
    law_manifest_keeps_what_the_upload_says(
        p.name,
        p.version,
        p.category,
        plan_address(s, p),
        meta,
        s.author,
    );
}

/// While the uploaded files are taken apart, that is the last thing that was asked for.
proof fn lemma_ingesting(s: SettingsView, form: FormView, events: Seq<EventView>)
    ensures
        run(s, form, events).0 is Ingesting ==> run(s, form, events).1.last() is Ingest,
{
    lemma_run(s, form, events);
}

/// The work of a stage that has any.
pub open spec fn stage_work(stage: StageView) -> Option<WorkView> {
    match stage {
        StageView::Building(w) => Some(w),
        StageView::Validating(w) => Some(w),
        _ => validated_work(stage),
    }
}

/// A package file was asked to be built with this manifest.
pub open spec fn was_built(actions: Seq<ActionView>, manifest: JsonView) -> bool {
    exists|b: int| #[trigger] is_build_of(actions, manifest, b)
}

/// This action asks for a package file to be built with this manifest.
pub open spec fn is_build_of(actions: Seq<ActionView>, manifest: JsonView, b: int) -> bool {
    0 <= b < actions.len() && (actions[b] matches ActionView::Build {
        directory: _,
        zip: _,
        manifest: m,
    } && m == manifest)
}

/// A step keeps the manifest and the plan of the work, or builds with it.
proof fn lemma_step_work(s: SettingsView, stage: StageView, event: EventView)
    ensures
        stage_work(next_step(s, stage, event).0) matches Some(w) ==> {
            ||| stage_work(stage) matches Some(v) && v.manifest == w.manifest && v.plan == w.plan
            ||| stage is Ingesting && event is Manifest && w == new_work(
                s,
                stage->Ingesting_0,
                event->Manifest_0,
            ) && (next_step(s, stage, event).1 matches ActionView::Build {
                directory: _,
                zip: _,
                manifest: m,
            } && m == w.manifest)
        },
{
}

/// The manifest of a work is that of its plan, for some of what an upload says of itself.
pub open spec fn is_plan_manifest(s: SettingsView, p: PlanView, pkg: JsonView) -> bool {
    exists|meta: Option<JsonView>| #[trigger]
        manifest(p.name, p.version, p.category, plan_address(s, p), meta, s.author) == pkg
}

/// An upload that has work has had its manifest built into a package file.
#[verifier::rlimit(30)]
proof fn lemma_run_built(s: SettingsView, form: FormView, events: Seq<EventView>)
    ensures
        stage_work(run(s, form, events).0) matches Some(w) ==> was_built(
            run(s, form, events).1,
            w.manifest,
        ) && is_plan_manifest(s, w.plan, w.manifest),
    decreases events.len(),
{
    lemma_run(s, form, events);
    if events.len() > 0 {
        let (st, acts) = run(s, form, events.drop_last());
        let (stage, actions) = run(s, form, events);
        let event = events.last();
        lemma_run_built(s, form, events.drop_last());
        lemma_step_work(s, st, event);
        if stage_work(stage) is Some {
            let w = stage_work(stage)->0;
            if stage_work(st) is Some {
                let b = choose|b: int| #[trigger] is_build_of(acts, w.manifest, b);
                assert(actions[b] == acts[b]);
                assert(is_build_of(actions, w.manifest, b));
            } else {
                let p = w.plan;
                assert(manifest(
                    p.name,
                    p.version,
                    p.category,
                    plan_address(s, p),
                    event->Manifest_0,
                    s.author,
                ) == w.manifest);
                assert(is_build_of(actions, w.manifest, acts.len() as int));
            }
        }
    }
}

/// The work of a stage that comes after the checksum was computed.
pub open spec fn hashed_work(stage: StageView) -> Option<WorkView> {
    match stage {
        StageView::Entering(w) => Some(w),
        _ => stored_work(stage),
    }
}

/// This event of an upload is the checksum that was asked for.
pub open spec fn is_checksum(
    actions: Seq<ActionView>,
    events: Seq<EventView>,
    sum: Seq<char>,
    h: int,
) -> bool {
    0 <= h < events.len() && actions[h] is Hash && events[h] == EventView::Checksum(sum)
}

/// A step keeps the checksum, or takes it over.
proof fn lemma_step_hashed(s: SettingsView, stage: StageView, event: EventView)
    ensures
        hashed_work(stage) matches Some(v) ==> next_step(s, stage, event).0 is Over || (hashed_work(
            next_step(s, stage, event).0,
        ) matches Some(w) && v.checksum == w.checksum),
        event matches EventView::Checksum(sum) ==> next_step(s, stage, event).0 is Over || (
        stage is Hashing && next_step(s, stage, event).0 is Entering && next_step(
            s,
            stage,
            event,
        ).0->Entering_0.checksum == sum),
        hashed_work(stage) is None && hashed_work(next_step(s, stage, event).0) is Some
            ==> event is Checksum,
        next_step(s, stage, event).0 is Hashing ==> next_step(s, stage, event).1 is Hash,
        next_step(s, stage, event).1 is StoreRegistry ==> next_step(s, stage, event).0 is Storing
            || next_step(s, stage, event).0 is MakingRoom,
        next_step(s, stage, event).0 is Storing ==> stage is Entering && event is Registry,
{
}

/// The checksum that was computed is the one of the work.
proof fn lemma_run_hashed(s: SettingsView, form: FormView, events: Seq<EventView>, h: int)
    requires
        run(s, form, events).0 !is Over,
        0 <= h < events.len(),
        events[h] is Checksum,
    ensures
        hashed_work(run(s, form, events).0) matches Some(w) && is_checksum(
            run(s, form, events).1,
            events,
            w.checksum,
            h,
        ),
    decreases events.len(),
{
    lemma_run(s, form, events);
    let head = events.drop_last();
    let (st, acts) = run(s, form, head);
    let (stage, actions) = run(s, form, events);
    lemma_step_hashed(s, st, events.last());
    if h < head.len() {
        assert(st !is Over);
        assert(head[h] == events[h]);
        lemma_run_hashed(s, form, head, h);
        assert(actions[h] == acts[h]);
    } else {
        assert(events[h] == events.last());
        assert(actions[h] == acts.last());
        lemma_run(s, form, head);
        lemma_hashing(s, form, head);
    }
}

/// While the checksum is computed, that is the last thing that was asked for.
proof fn lemma_hashing(s: SettingsView, form: FormView, events: Seq<EventView>)
    ensures
        run(s, form, events).0 is Hashing ==> run(s, form, events).1.last() is Hash,
{
    lemma_run(s, form, events);
    if events.len() > 0 {
        lemma_step_hashed(s, run(s, form, events.drop_last()).0, events.last());
    }
}

/// Two registries differ in one version of a package at most, which the later one may
/// have added: the other versions have the entries that they had, the other packages and
/// the rest of the registry are the same.
pub open spec fn only_version_changed(
    repo: JsonView,
    after: JsonView,
    name: Seq<char>,
    version: Seq<char>,
) -> bool {
    &&& forall|v: Seq<char>|
        v != version ==> #[trigger] entry_of(after, name, v) == entry_of(repo, name, v)
    &&& forall|other: Seq<char>|
        other != name ==> #[trigger] package(after, other) == package(repo, other)
    &&& forall|key: Seq<char>|
        key != "packages"@ ==> #[trigger] after.get(key) == repo.get(key)
}

/// Whether a registry lists the version of a plan, with an entry that says what a
/// manifest says, and this checksum.
pub open spec fn enters_as_built(
    actions: Seq<ActionView>,
    p: PlanView,
    sum: Seq<char>,
    after: JsonView,
    b: int,
) -> bool {
    &&& 0 <= b < actions.len()
    &&& actions[b] matches ActionView::Build { directory: _, zip: _, manifest } && {
        &&& entry_of(after, p.name, p.version) matches Some(entry) && is_entry_of(
            entry,
            manifest,
            sum,
        )
        &&& manifest.get("name"@) == Some(JsonView::Text(p.name))
        &&& manifest.get("version"@) == Some(JsonView::Text(p.version))
        &&& manifest.get("category"@) == Some(JsonView::Text(p.category))
    }
}

/// The registry that an upload stores once its checksum is known lists the version of
/// the plan. The entry says what the manifest says that the same upload has had built
/// into the package file, and names the checksum; the rest of the registry is as it was
/// read.
#[verifier::rlimit(30)]
pub proof fn law_version_is_entered_as_built(
    s: SettingsView,
    form: FormView,
    events: Seq<EventView>,
    h: int,
)
    requires
        run(s, form, events).1.last() is StoreRegistry,
        0 <= h < events.len(),
        events[h] is Checksum,
    ensures
        run(s, form, events).1[h] is Hash,
        registry_at(events, events.len() - 1) is Some,
        plan_made(s, form, events) is Some,
        ({
            let repo = registry_at(events, events.len() - 1)->0;
            let p = plan_made(s, form, events)->0;
            let actions = run(s, form, events).1;
            let after = actions.last()->StoreRegistry_0;
            &&& only_version_changed(repo, after, p.name, p.version)
            &&& exists|b: int| #[trigger]
                enters_as_built(actions, p, events[h]->Checksum_0, after, b)
        }),
{
    lemma_run(s, form, events);
    let head = events.drop_last();
    let (st, acts) = run(s, form, head);
    let (stage, actions) = run(s, form, events);
    lemma_step_hashed(s, st, events.last());
    lemma_run_hashed(s, form, events, h);
    let w = st->Entering_0;
    let p = w.plan;
    let text = events.last()->Registry_0;
    let repo = json_text(text)->Ok_0;
    let after = actions.last()->StoreRegistry_0;
    lemma_run_plan(s, form, head);
    lemma_plan_stays(s, form, events);
    lemma_run_built(s, form, head);
    let b = choose|b: int| #[trigger] is_build_of(acts, w.manifest, b);
    assert(actions[b] == acts[b]);
    let meta = choose|meta: Option<JsonView>| #[trigger]
        manifest(p.name, p.version, p.category, plan_address(s, p), meta, s.author) == w.manifest;
    lemma_entry_of_manifest(
        p.name,
        p.version,
        p.category,
        plan_address(s, p),
        meta,
        s.author,
        w.checksum,
    );
    law_manifest_is_stamped(p.name, p.version, p.category, plan_address(s, p), meta, s.author);
    let entry = work_entry(s, w);
    law_publication(repo, p.name, p.version, entry);
    assert(entry_of(after, p.name, p.version) == Some(entry));
    assert forall|v: Seq<char>| v != p.version implies #[trigger] entry_of(after, p.name, v)
        == entry_of(repo, p.name, v) by {
        lemma_entry_is_listed(after, p.name, v);
        lemma_entry_is_listed(repo, p.name, v);
    }
    assert(enters_as_built(actions, p, w.checksum, after, b));
}

/// The entry of a version is there where the version is listed.
proof fn lemma_entry_is_listed(repo: JsonView, name: Seq<char>, version: Seq<char>)
    ensures
        lists(repo, name, version) ==> entry_of(repo, name, version) == Some(
            versions(repo, name)->0[version],
        ),
        !lists(repo, name, version) ==> entry_of(repo, name, version) is None,
{
}

/// A step to a demotion is one of a plan that asks for room.
proof fn lemma_step_demoting(s: SettingsView, stage: StageView, event: EventView)
    ensures
        next_step(s, stage, event).0 matches StageView::Demoting(w) ==> w.plan.demote && next_step(
            s,
            stage,
            event,
        ).1 is ReadRegistry,
        next_step(s, stage, event).1 is Rename ==> stage is Demoting && event is Registry
            && next_step(s, stage, event).0 is Renaming,
        next_step(s, stage, event).0 is MakingRoom ==> stage is Renaming && event is Done,
        next_step(s, stage, event).0 is Renaming ==> next_step(s, stage, event).1 is Rename,
{
}

/// A demotion is one of a plan that asks for room, after the registry that was read.
proof fn lemma_run_demoting(s: SettingsView, form: FormView, events: Seq<EventView>)
    ensures
        run(s, form, events).0 matches StageView::Demoting(w) ==> w.plan.demote && run(
            s,
            form,
            events,
        ).1.last() is ReadRegistry,
        run(s, form, events).0 is Renaming <==> run(s, form, events).1.last() is Rename,
{
    lemma_run(s, form, events);
    if events.len() > 0 {
        lemma_step_demoting(s, run(s, form, events.drop_last()).0, events.last());
    }
}

/// The steps in which a version makes room.
#[verifier::rlimit(30)]
proof fn lemma_room_steps(s: SettingsView, form: FormView, events: Seq<EventView>)
    requires
        run(s, form, events).1.last() is StoreRegistry,
        events.len() > 0,
        run(s, form, events).1[events.len() - 1] is Rename,
    ensures
        events.len() >= 2,
        run(s, form, events).1[events.len() - 2] is ReadRegistry,
        events[events.len() - 2] is Registry,
        plan_made(s, form, events) is Some,
        ({
            let p = plan_made(s, form, events)->0;
            let text = events[events.len() - 2]->Registry_0;
            let actions = run(s, form, events).1;
            &&& p.demote
            &&& stored_outcome(text, s.host, p.name, p.version, p.rc_slot) is Ok
            &&& stored_outcome(text, s.host, p.name, p.version, p.rc_slot)->Ok_0.0
                == actions.last()->StoreRegistry_0
            &&& stored_renames(text, s.host, p.name, p.version, p.rc_slot)
                == actions[events.len() - 1]->Rename_0
        }),
{
    lemma_run(s, form, events);
    let head = events.drop_last();
    let (st, acts) = run(s, form, head);
    lemma_run(s, form, head);
    assert(acts.last() == run(s, form, events).1[events.len() - 1]);
    lemma_run_demoting(s, form, head);
    assert(head.len() > 0) by {
        if head.len() == 0 {
            assert(acts.last() == first_step(s, form).1);
        }
    }
    let first = head.drop_last();
    let (st0, acts0) = run(s, form, first);
    lemma_step_demoting(s, st0, head.last());
    lemma_run_demoting(s, form, first);
    assert(head.last() == events[events.len() - 2]);
    lemma_run(s, form, first);
    assert(acts0.last() == run(s, form, events).1[events.len() - 2]);
    lemma_run_plan(s, form, first);
    lemma_plan_stays(s, form, head);
    lemma_plan_stays(s, form, events);
}

/// An upload whose form asks for room, and for a candidate number, makes the version
/// that it asks for that candidate. `after` is the registry that it stores once the files
/// are renamed: the stable version is listed there as the candidate with the number, the
/// candidates from that number on are one higher, and the rest is as it was read. The
/// files are renamed in the same way. Without a number the stable version becomes the
/// newest candidate.
#[verifier::rlimit(30)]
pub proof fn law_demotion_follows_the_form(
    s: SettingsView,
    form: FormView,
    events: Seq<EventView>,
    n: u64,
)
    requires
        run(s, form, events).1.last() is StoreRegistry,
        events.len() > 0,
        run(s, form, events).1[events.len() - 1] is Rename,
    ensures
        form.demote matches Some(d) && (ascii_lowercase(d) == "1"@ || ascii_lowercase(d)
            == "true"@ || ascii_lowercase(d) == "on"@ || ascii_lowercase(d) == "yes"@),
        events.len() >= 2,
        run(s, form, events).1[events.len() - 2] is ReadRegistry,
        registry_at(events, events.len() - 2) is Some,
        ({
            let repo = registry_at(events, events.len() - 2)->0;
            let actions = run(s, form, events).1;
            let after = actions.last()->StoreRegistry_0;
            let renames = actions[events.len() - 1]->Rename_0;
            let name = replaced(lowercase(trimmed(form.name->0)), ' ', '.');
            let version = trimmed(form.version->0);
            &&& (form.rc_slot matches Some(t) && trimmed(t) == decimal(n as nat))
                ==> is_demoted_to(repo, after, s.host, name, version, n) && renames_make_room(
                repo,
                s.host,
                name,
                version,
                n,
                renames,
            )
            &&& !is_filled(form.rc_slot) ==> exists|k: u64| #[trigger]
                is_demoted_to_the_end(repo, after, s.host, name, version, renames, k)
        }),
{
    lemma_room_steps(s, form, events);
    law_upload_follows_its_form(s, form, events, n);
    let p = plan_made(s, form, events)->0;
    let text = events[events.len() - 2]->Registry_0;
    assert(p.version == trimmed(form.version->0));
    assert(json_text(text) is Ok);
    assert(registry_at(events, events.len() - 2) == Some(json_text(text)->Ok_0));
    if form.rc_slot matches Some(t) && trimmed(t) == decimal(n as nat) {
        law_demotion_takes_the_number_asked_for(text, s.host, p.name, p.version, n);
    }
    if !is_filled(form.rc_slot) {
        law_demotion_takes_the_next_number(text, s.host, p.name, p.version);
    }
}

/// Room is made exactly where it is asked for and needed. A package file is moved to its
/// place after the manifest was accepted, where the plan asks for no room; else after the
/// registry in which the version made room was stored, or after a registry was read that
/// does not list the version.
#[verifier::rlimit(30)]
pub proof fn law_room_is_made_where_needed(
    s: SettingsView,
    form: FormView,
    events: Seq<EventView>,
    i: int,
)
    requires
        0 <= i < run(s, form, events).1.len(),
        run(s, form, events).1[i] is MoveZip,
    ensures
        i > 0,
        plan_made(s, form, events) matches Some(p) && {
            let actions = run(s, form, events).1;
            if p.demote {
                ||| actions[i - 1] is StoreRegistry && events[i - 1] is Done
                ||| actions[i - 1] is ReadRegistry && registry_at(events, i - 1) is Some && !lists(
                    registry_at(events, i - 1)->0,
                    p.name,
                    p.version,
                )
            } else {
                actions[i - 1] is ValidateManifest && events[i - 1] is Report
            }
        },
{
    lemma_run(s, form, events);
    lemma_run_before(s, form, events, i);
    assert(i > 0) by {
        if i == 0 {
            assert(events.take(0) =~= Seq::<EventView>::empty());
            assert(run(s, form, events).1[0] == first_step(s, form).1);
        }
    }
    let before = events.take(i - 1);
    lemma_step_before(s, form, events, i);
    lemma_step_moves(s, run(s, form, before).0, events[i - 1]);
    lemma_run_plan(s, form, before);
    lemma_plan_before(s, form, events, i - 1);
    lemma_run_demoting(s, form, before);
    lemma_run_validated(s, form, before);
    lemma_making_room(s, form, before);
}

/// The steps that ask for the package file to be moved.
proof fn lemma_step_moves(s: SettingsView, stage: StageView, event: EventView)
    ensures
        next_step(s, stage, event).1 is MoveZip ==> match (stage, event) {
            (StageView::Validating(w), EventView::Report(_)) => !w.plan.demote,
            (StageView::Demoting(w), EventView::Registry(text)) => match json_text(text) {
                Ok(repo) => !lists(repo, w.plan.name, w.plan.version),
                Err(_) => false,
            },
            (StageView::MakingRoom(_), EventView::Done) => true,
            (_, _) => false,
        },
{
}

/// While a version makes room in the registry, that is stored.
proof fn lemma_making_room(s: SettingsView, form: FormView, events: Seq<EventView>)
    ensures
        run(s, form, events).0 matches StageView::MakingRoom(w) ==> w.plan.demote && run(
            s,
            form,
            events,
        ).1.last() is StoreRegistry,
        run(s, form, events).0 matches StageView::Renaming(w, _) ==> w.plan.demote,
    decreases events.len(),
{
    lemma_run(s, form, events);
    if events.len() > 0 {
        lemma_making_room(s, form, events.drop_last());
        lemma_run_demoting(s, form, events.drop_last());
        lemma_step_demoting(s, run(s, form, events.drop_last()).0, events.last());
    }
}

/// The answer to an upload that was published, in the parts that matter.
proof fn lemma_success_parts(s: SettingsView, w: WorkView, listing: Seq<char>)
    ensures
        ({
            let text = success_text(s, w, listing);
            &&& has_part(text, w.note)
            &&& has_part(text, bump_note(w.plan))
            &&& has_part(
                text,
                "Package <b>"@ + w.plan.name + "</b> v"@ + w.plan.version
                    + " uploaded and published.<br><b>Zip:</b> <a href=\""@ + plan_address(
                    s,
                    w.plan,
                ) + "\">"@,
            )
            &&& has_part(text, index_address(s.host))
            &&& has_part(text, w.checksum)
            &&& w.report matches Some(r) ==> has_part(text, r)
            &&& has_part(text, listing)
            &&& has_part(text, w.regen)
        }),
{
    let none = Seq::<char>::empty();
    let report = match w.report {
        Some(t) => t,
        None => none,
    };
    let bump = bump_note(w.plan);
    let index = index_address(s.host);
    let front = w.note + bump;
    let package = "Package <b>"@ + w.plan.name + "</b> v"@ + w.plan.version
        + " uploaded and published.<br><b>Zip:</b> <a href=\""@ + plan_address(s, w.plan) + "\">"@;
    let start = front + "Package <b>"@ + w.plan.name + "</b> v"@ + w.plan.version
        + " uploaded and published.<br><b>Zip:</b> <a href=\""@ + plan_address(s, w.plan) + "\">"@;
    assert(start =~= front + package);
    let parts = seq![
        start,
        w.plan.name,
        "</a><br><b>Master repo:</b> <a href=\""@,
        index,
        "\">"@,
        index,
        "</a><br><b>zipSHA256:</b> <code>"@,
        w.checksum,
        "</code><br><hr><b>Manifest validation (VCC DLL):</b><br><pre>"@,
        report,
        "</pre><b>Repo validation:</b><br><pre>"@,
        listing,
        "</pre><b>Category regen:</b><br><pre>"@,
        w.regen,
        "</pre>"@,
    ];
    let text = success_text(s, w, listing);
    lemma_row(parts, text);
    lemma_row_parts(parts, 0);
    lemma_row_parts(parts, 3);
    lemma_row_parts(parts, 7);
    lemma_row_parts(parts, 9);
    lemma_row_parts(parts, 11);
    lemma_row_parts(parts, 13);
    lemma_has_part(front, package, none);
    assert(front + package + none =~= start);
    lemma_has_part(none, w.note, bump + package);
    assert(none + w.note + (bump + package) =~= start);
    lemma_has_part(w.note, bump, package);
    lemma_part_in_part(text, start, package);
    lemma_part_in_part(text, start, w.note);
    lemma_part_in_part(text, start, bump);
}

/// Texts in a row.
spec fn row(parts: Seq<Seq<char>>) -> Seq<char>
    decreases parts.len(),
{
    if parts.len() == 0 {
        Seq::empty()
    } else if parts.len() == 1 {
        parts[0]
    } else {
        row(parts.drop_last()) + parts.last()
    }
}

/// Fifteen texts in a row.
proof fn lemma_row(p: Seq<Seq<char>>, text: Seq<char>)
    requires
        p.len() == 15,
        text == p[0] + p[1] + p[2] + p[3] + p[4] + p[5] + p[6] + p[7] + p[8] + p[9] + p[10] + p[11]
            + p[12] + p[13] + p[14],
    ensures
        row(p) == text,
{
    assert(row(p.take(1)) == p[0]);
    assert(p.take(2).drop_last() =~= p.take(1));
    assert(row(p.take(2)) == row(p.take(1)) + p[1]);
    assert(p.take(3).drop_last() =~= p.take(2));
    assert(row(p.take(3)) == row(p.take(2)) + p[2]);
    assert(p.take(4).drop_last() =~= p.take(3));
    assert(row(p.take(4)) == row(p.take(3)) + p[3]);
    assert(p.take(5).drop_last() =~= p.take(4));
    assert(row(p.take(5)) == row(p.take(4)) + p[4]);
    assert(p.take(6).drop_last() =~= p.take(5));
    assert(row(p.take(6)) == row(p.take(5)) + p[5]);
    assert(p.take(7).drop_last() =~= p.take(6));
    assert(row(p.take(7)) == row(p.take(6)) + p[6]);
    assert(p.take(8).drop_last() =~= p.take(7));
    assert(row(p.take(8)) == row(p.take(7)) + p[7]);
    assert(p.take(9).drop_last() =~= p.take(8));
    assert(row(p.take(9)) == row(p.take(8)) + p[8]);
    assert(p.take(10).drop_last() =~= p.take(9));
    assert(row(p.take(10)) == row(p.take(9)) + p[9]);
    assert(p.take(11).drop_last() =~= p.take(10));
    assert(row(p.take(11)) == row(p.take(10)) + p[10]);
    assert(p.take(12).drop_last() =~= p.take(11));
    assert(row(p.take(12)) == row(p.take(11)) + p[11]);
    assert(p.take(13).drop_last() =~= p.take(12));
    assert(row(p.take(13)) == row(p.take(12)) + p[12]);
    assert(p.take(14).drop_last() =~= p.take(13));
    assert(row(p.take(14)) == row(p.take(13)) + p[13]);
    assert(p.take(15).drop_last() =~= p.take(14));
    assert(row(p.take(15)) == row(p.take(14)) + p[14]);
    assert(p.take(15) =~= p);
}

/// Texts in a row hold each of them.
proof fn lemma_row_parts(parts: Seq<Seq<char>>, i: int)
    requires
        0 <= i < parts.len(),
    ensures
        has_part(row(parts), parts[i]),
    decreases parts.len(),
{
    let none = Seq::<char>::empty();
    if parts.len() == 1 {
        lemma_has_part(none, parts[0], none);
        assert(none + parts[0] + none =~= parts[0]);
    } else if i == parts.len() - 1 {
        lemma_has_part(row(parts.drop_last()), parts[i], none);
        assert(row(parts.drop_last()) + parts[i] + none =~= row(parts));
    } else {
        let head = parts.drop_last();
        lemma_row_parts(head, i);
        lemma_has_part(none, row(head), parts.last());
        assert(none + row(head) + parts.last() =~= row(parts));
        lemma_part_in_part(row(parts), row(head), parts[i]);
    }
}

/// A part of a part of a text is a part of the text.
proof fn lemma_part_in_part(text: Seq<char>, middle: Seq<char>, part: Seq<char>)
    requires
        has_part(text, middle),
        has_part(middle, part),
    ensures
        has_part(text, part),
{
    let i = choose|i: int|
        0 <= i && i + middle.len() <= text.len() && #[trigger] text.subrange(i, i + middle.len())
            == middle;
    let k = choose|k: int|
        0 <= k && k + part.len() <= middle.len() && #[trigger] middle.subrange(k, k + part.len())
            == part;
    assert(text.subrange(i + k, i + k + part.len()) =~= part);
}

/// A step takes a report over, keeps it, or ends the upload.
proof fn lemma_step_reported(s: SettingsView, stage: StageView, event: EventView)
    ensures
        event is Report && next_step(s, stage, event).0 !is Over ==> {
            ||| validated_work(next_step(s, stage, event).0) is Some && validated_work(
                next_step(s, stage, event).0,
            )->0.report == Some(event->Report_0)
            ||| next_step(s, stage, event).0 is Checking && next_step(
                s,
                stage,
                event,
            ).0->Checking_0.regen == event->Report_0
        },
        validated_work(stage) is Some && next_step(s, stage, event).0 !is Over ==> validated_work(
            next_step(s, stage, event).0,
        ) is Some && validated_work(next_step(s, stage, event).0)->0.report == validated_work(
            stage,
        )->0.report,
        stage is Checking ==> next_step(s, stage, event).0 is Over,
        next_step(s, stage, event).1 matches ActionView::Reply(ok, text) ==> (ok
            ==> stage is Checking && event is Report && text == success_text(
            s,
            stage->Checking_0,
            event->Report_0,
        )),
{
}

/// What a program reported on the way of an upload is in its work.
proof fn lemma_run_reported(s: SettingsView, form: FormView, events: Seq<EventView>, j: int)
    requires
        run(s, form, events).0 !is Over,
        0 <= j < events.len(),
        events[j] is Report,
    ensures
        ({
            let stage = run(s, form, events).0;
            ||| validated_work(stage) is Some && validated_work(stage)->0.report == Some(
                events[j]->Report_0,
            )
            ||| stage is Checking && stage->Checking_0.regen == events[j]->Report_0
        }),
    decreases events.len(),
{
    lemma_run(s, form, events);
    let head = events.drop_last();
    let st = run(s, form, head).0;
    lemma_step_reported(s, st, events.last());
    if j < head.len() {
        assert(head[j] == events[j]);
        assert(st !is Over);
        lemma_run_reported(s, form, head, j);
    } else {
        assert(events[j] == events.last());
    }
}

/// The answer to an upload that was published says what was done. It names the package
/// and the version of the plan, and leads to the package file; it holds the checksum and
/// all that the validator and the generator reported. Where the version is another one
/// than was asked for, it says that the one asked for exists.
pub proof fn law_answer_tells_what_was_done(
    s: SettingsView,
    form: FormView,
    events: Seq<EventView>,
    j: int,
)
    requires
        run(s, form, events).1.last() matches ActionView::Reply(ok, _) && ok,
        0 <= j < events.len(),
    ensures
        plan_made(s, form, events) is Some,
        ({
            let p = plan_made(s, form, events)->0;
            let text = run(s, form, events).1.last()->Reply_1;
            &&& has_part(
                text,
                "Package <b>"@ + p.name + "</b> v"@ + p.version
                    + " uploaded and published.<br><b>Zip:</b> <a href=\""@ + (without_end_slashes(
                    s.host,
                ) + "/"@ + (p.category + "/"@ + p.name + "/"@ + (p.name + "-"@ + p.version
                    + ".zip"@))) + "\">"@,
            )
            &&& has_part(text, without_end_slashes(s.host) + "/index.json"@)
            &&& events[j] matches EventView::Report(report) ==> has_part(text, report)
            &&& events[j] matches EventView::Checksum(sum) ==> has_part(text, sum)
            &&& p.bumped ==> has_part(
                text,
                "Version <b>"@ + p.asked
                    + "</b> already existed, so this upload was published as <b>rc candidate "@
                    + p.version + "</b> and the old version was kept intact.<br>"@,
            )
        }),
{
    lemma_run(s, form, events);
    let head = events.drop_last();
    let st = run(s, form, head).0;
    lemma_step_reported(s, st, events.last());
    lemma_run_plan(s, form, head);
    lemma_plan_stays(s, form, events);
    lemma_plan_directory(s, form, events);
    let w = st->Checking_0;
    lemma_success_parts(s, w, events.last()->Report_0);
    if j < head.len() {
        assert(head[j] == events[j]);
        if events[j] is Report {
            lemma_run_reported(s, form, head, j);
        }
        if events[j] is Checksum {
            lemma_run_hashed(s, form, head, j);
        }
    }
}

/// The answer to an upload for which a version made room tells of the demotion.
pub proof fn law_answer_tells_of_the_demotion(
    s: SettingsView,
    form: FormView,
    events: Seq<EventView>,
    j: int,
)
    requires
        run(s, form, events).1.last() matches ActionView::Reply(ok, _) && ok,
        0 <= j < events.len(),
        run(s, form, events).1[j] is Rename,
    ensures
        plan_made(s, form, events) is Some,
        ({
            let p = plan_made(s, form, events)->0;
            let text = run(s, form, events).1.last()->Reply_1;
            has_part(
                text,
                "Existing stable version <b>"@ + p.version + "</b> demoted to <b>"@ + p.version
                    + "-rc."@,
            )
        }),
{
    lemma_run(s, form, events);
    let head = events.drop_last();
    let (st, acts) = run(s, form, head);
    lemma_run(s, form, head);
    lemma_step_reported(s, st, events.last());
    lemma_run_plan(s, form, head);
    lemma_plan_stays(s, form, events);
    let w = st->Checking_0;
    lemma_success_parts(s, w, events.last()->Report_0);
    assert(run(s, form, events).1[j] == acts[j]);
    lemma_run_noted(s, form, head, j);
    let part = demotion_words(w.plan.version);
    let none = Seq::<char>::empty();
    let rest = w.note.skip(part.len() as int);
    lemma_has_part(none, part, rest);
    assert(w.note.subrange(0, part.len() as int) == part);
    assert(none + part + rest =~= w.note);
    lemma_part_in_part(success_text(s, w, events.last()->Report_0), w.note, part);
}

/// How the report on a demotion starts.
pub open spec fn demotion_words(version: Seq<char>) -> Seq<char> {
    "Existing stable version <b>"@ + version + "</b> demoted to <b>"@ + version + "-rc."@
}

/// The note that a stage has, or will have once the files are renamed.
spec fn stage_note(stage: StageView) -> Option<(Seq<char>, Seq<char>)> {
    match stage {
        StageView::Renaming(w, outcome) => match outcome {
            Ok((_, note)) => Some((w.plan.version, note)),
            Err(_) => None,
        },
        StageView::MakingRoom(w) => Some((w.plan.version, w.note)),
        StageView::Moving(w) => Some((w.plan.version, w.note)),
        StageView::Hashing(w) => Some((w.plan.version, w.note)),
        StageView::Entering(w) => Some((w.plan.version, w.note)),
        StageView::Storing(w) => Some((w.plan.version, w.note)),
        StageView::Regenerating(w) => Some((w.plan.version, w.note)),
        StageView::Checking(w) => Some((w.plan.version, w.note)),
        _ => None,
    }
}

/// A step behind the renaming of files keeps the note, or ends the upload.
proof fn lemma_step_noted(s: SettingsView, stage: StageView, event: EventView)
    ensures
        stage_note(stage) is Some && next_step(s, stage, event).0 !is Over ==> stage_note(
            next_step(s, stage, event).0,
        ) == stage_note(stage),
        stage is Renaming && stage_note(stage) is None ==> next_step(s, stage, event).0 is Over,
        next_step(s, stage, event).1 is Rename ==> (stage_note(
            next_step(s, stage, event).0,
        ) matches Some(n) ==> demotion_words(n.0).is_prefix_of(n.1)),
{
    let next = next_step(s, stage, event).0;
    if next_step(s, stage, event).1 is Rename && stage_note(next) is Some {
        let p = stage->Demoting_0.plan;
        let repo = json_text(event->Registry_0)->Ok_0;
        let m = versions(repo, p.name)->0;
        let slot = chosen_slot(m, p.version, p.rc_slot);
        let note = demotion_note(m, p.version, slot);
        assert(stage_note(next) == Some((p.version, note)));
        assert(note.subrange(0, demotion_words(p.version).len() as int) =~= demotion_words(
            p.version,
        ));
    }
}

/// An upload for which files were renamed has the report on the demotion.
proof fn lemma_run_noted(s: SettingsView, form: FormView, events: Seq<EventView>, j: int)
    requires
        0 <= j <= events.len(),
        run(s, form, events).1[j] is Rename,
        run(s, form, events).0 !is Over,
    ensures
        run(s, form, events).0 is Renaming && stage_note(run(s, form, events).0) is None || (
        stage_note(run(s, form, events).0) matches Some(n) && demotion_words(n.0).is_prefix_of(
            n.1,
        )),
    decreases events.len(),
{
    lemma_run(s, form, events);
    if events.len() == 0 {
        assert(run(s, form, events).1[0] == first_step(s, form).1);
    } else {
        let head = events.drop_last();
        let (st, acts) = run(s, form, head);
        lemma_run(s, form, head);
        lemma_step_noted(s, st, events.last());
        if j <= head.len() {
            assert(run(s, form, events).1[j] == acts[j]);
            assert(st !is Over);
            lemma_run_noted(s, form, head, j);
        } else {
            lemma_step_demoting(s, st, events.last());
        }
    }
}

/// The steps of an upload follow each other: the manifest is validated after the package
/// file was built, the checksum is computed of the package file once it lies at its
/// place, the listings are generated after a registry was stored, and the published
/// listing is validated after that.
pub proof fn law_steps_follow_each_other(
    s: SettingsView,
    form: FormView,
    events: Seq<EventView>,
    i: int,
)
    requires
        0 <= i < run(s, form, events).1.len(),
    ensures
        ({
            let actions = run(s, form, events).1;
            &&& actions[i] is ValidateManifest ==> i > 0 && actions[i - 1] is Build && events[i - 1]
                is Done
            &&& actions[i] is Hash ==> i > 0 && actions[i - 1] is MoveZip && events[i - 1] is Done
            &&& actions[i] is Regenerate ==> i > 0 && actions[i - 1] is StoreRegistry && events[i
                - 1] is Done
            &&& actions[i] is ValidateListing ==> i > 0 && actions[i - 1] is Regenerate && events[i
                - 1] is Report
            &&& actions[i] is StoreRegistry ==> i > 0 && (actions[i - 1] is Rename || actions[i
                - 1] is ReadRegistry)
        }),
{
    lemma_run(s, form, events);
    lemma_run_before(s, form, events, i);
    if i == 0 {
        assert(events.take(0) =~= Seq::<EventView>::empty());
        assert(run(s, form, events).1[0] == first_step(s, form).1);
    } else {
        lemma_step_before(s, form, events, i);
        lemma_waits_for(s, form, events.take(i - 1));
        lemma_step_from(s, run(s, form, events.take(i - 1)).0, events[i - 1]);
    }
}

/// The stages from which an action is asked for.
proof fn lemma_step_from(s: SettingsView, stage: StageView, event: EventView)
    ensures
        next_step(s, stage, event).1 is ValidateManifest ==> stage is Building && event is Done,
        next_step(s, stage, event).1 is Hash ==> stage is Moving && event is Done,
        next_step(s, stage, event).1 is Regenerate ==> stage is Storing && event is Done,
        next_step(s, stage, event).1 is ValidateListing ==> stage is Regenerating
            && event is Report,
        next_step(s, stage, event).1 is StoreRegistry ==> (stage is Renaming && event is Done) || (
        stage is Entering && event is Registry),
{
}

/// A stage waits for what was asked for last.
proof fn lemma_waits_for(s: SettingsView, form: FormView, events: Seq<EventView>)
    ensures
        ({
            let (stage, actions) = run(s, form, events);
            &&& stage is Building ==> actions.last() is Build
            &&& stage is Moving ==> actions.last() is MoveZip
            &&& stage is Storing ==> actions.last() is StoreRegistry
            &&& stage is Regenerating ==> actions.last() is Regenerate
            &&& stage is Renaming ==> actions.last() is Rename
            &&& stage is Entering ==> actions.last() is ReadRegistry
        }),
{
    lemma_run(s, form, events);
}

/// An upload is worked on only with the credentials of the shop, and where something
/// arrived of each of its files.
pub proof fn law_only_good_uploads_are_worked_on(
    s: SettingsView,
    form: FormView,
    events: Seq<EventView>,
    i: int,
    k: int,
)
    requires
        0 <= i < run(s, form, events).1.len(),
        run(s, form, events).1[i] is Ingest,
        0 <= k < form.files.len(),
    ensures
        form.username == Some(s.username),
        form.password == Some(s.password),
        form.files.len() > 0,
        form.files[k].size matches Some(n) && n > 0,
{
    lemma_run(s, form, events);
    lemma_run_before(s, form, events, i);
    law_void_files_are_refused(form.files);
    law_files_go_where_planned(s, form, events, i);
    law_upload_follows_its_form(s, form, events, 0);
    if i == 0 {
        assert(events.take(0) =~= Seq::<EventView>::empty());
        assert(run(s, form, events).1[0] == first_step(s, form).1);
    } else {
        lemma_step_before(s, form, events, i);
        lemma_resolving_files(s, form, events.take(i - 1));
        lemma_ingest_from(s, run(s, form, events.take(i - 1)).0, events[i - 1]);
    }
    if form.files[k].size is None || form.files[k].size == Some(0u64) {
        assert(files_refusal(form.files) is Some);
    }
}

/// The files of a form are kept until the plan is made.
proof fn lemma_resolving_files(s: SettingsView, form: FormView, events: Seq<EventView>)
    ensures
        run(s, form, events).0 matches StageView::Resolving(_, files) ==> files == form.files,
{
    lemma_run_plan(s, form, events);
}

/// Files are taken apart only where something arrived of each.
proof fn lemma_ingest_from(s: SettingsView, stage: StageView, event: EventView)
    ensures
        next_step(s, stage, event).1 is Ingest ==> (stage matches StageView::Resolving(_, files)
            && files_refusal(files) is None),
{
}

/// Whether an event is what comes of an action that succeeds.
pub open spec fn comes_of(action: ActionView, event: EventView) -> bool {
    match action {
        ActionView::ReadRegistry => event is Registry,
        ActionView::Ingest { directory: _ } => event is Manifest,
        ActionView::Build { directory: _, zip: _, manifest: _ } => event is Done,
        ActionView::ValidateManifest => event is Report,
        ActionView::Rename(_) => event is Done,
        ActionView::StoreRegistry(_) => event is Done,
        ActionView::MoveZip(_) => event is Done,
        ActionView::Hash => event is Checksum,
        ActionView::Regenerate => event is Report,
        ActionView::ValidateListing => event is Report,
        ActionView::Reply(_, _) => false,
    }
}

/// A stage waits for an event that comes of the action that was asked for last.
spec fn waits(stage: StageView, action: ActionView) -> bool {
    match stage {
        StageView::Resolving(_, _) => action is ReadRegistry,
        StageView::Ingesting(_) => action is Ingest,
        StageView::Building(_) => action is Build,
        StageView::Validating(_) => action is ValidateManifest,
        StageView::Demoting(_) => action is ReadRegistry,
        StageView::Renaming(_, _) => action is Rename,
        StageView::MakingRoom(_) => action is StoreRegistry,
        StageView::Moving(_) => action is MoveZip,
        StageView::Hashing(_) => action is Hash,
        StageView::Entering(_) => action is ReadRegistry,
        StageView::Storing(_) => action is StoreRegistry,
        StageView::Regenerating(_) => action is Regenerate,
        StageView::Checking(_) => action is ValidateListing,
        StageView::Over => action is Reply,
    }
}

/// Every stage waits for what was asked for last.
proof fn lemma_waits(s: SettingsView, form: FormView, events: Seq<EventView>)
    ensures
        waits(run(s, form, events).0, run(s, form, events).1.last()),
{
    lemma_run(s, form, events);
    if events.len() > 0 {
        lemma_step_waits(s, run(s, form, events.drop_last()).0, events.last());
    } else {
        assert(run(s, form, events).1.last() == first_step(s, form).1);
    }
}

/// A step asks for what its stage waits for.
proof fn lemma_step_waits(s: SettingsView, stage: StageView, event: EventView)
    ensures
        waits(next_step(s, stage, event).0, next_step(s, stage, event).1),
{
}

/// Whether a registry that was read is no good for an upload with this plan: it is no
/// JSON, or has no packages, or none that take the version.
pub open spec fn is_no_registry_for(text: Seq<char>, name: Seq<char>) -> bool {
    match json_text(text) {
        Ok(repo) => repo.get("packages"@) is None || !can_publish(repo, name),
        Err(_) => true,
    }
}

/// An upload fails only for a reason: an action failed, with these words, or brought
/// something else than it should; or the registry that was read could not be used; or
/// the form asks for what it cannot have, which shows with the first registry that is
/// read; or a version that was to make room could not. Otherwise it goes on, to the
/// answer that it was published.
#[verifier::rlimit(30)]
pub proof fn law_uploads_fail_only_for_a_reason(
    s: SettingsView,
    form: FormView,
    events: Seq<EventView>,
)
    requires
        events.len() > 0,
        run(s, form, events.drop_last()).1.last() !is Reply,
        run(s, form, events).1.last() matches ActionView::Reply(ok, _) && !ok,
    ensures
        ({
            let action = run(s, form, events).1[events.len() - 1];
            let event = events.last();
            let text = run(s, form, events).1.last()->Reply_1;
            ||| event == EventView::Failed(text)
            ||| event !is Failed && !comes_of(action, event)
            ||| events.len() == 1 && event is Registry && (match request_of(
                form,
                s.username,
                s.password,
            ) {
                Ok(r) => asks_registry(r) && (planned(r, s.categories, event->Registry_0) is Err
                    || files_refusal(form.files) is Some),
                Err(_) => false,
            })
            ||| action is ReadRegistry && event is Registry && (match plan_made(s, form, events) {
                Some(p) => is_no_registry_for(event->Registry_0, p.name),
                None => false,
            })
            ||| action is Rename && event is Done
        }),
{
    lemma_run(s, form, events);
    let head = events.drop_last();
    let (st, acts) = run(s, form, head);
    lemma_run(s, form, head);
    lemma_waits(s, form, head);
    assert(run(s, form, events).1[events.len() - 1] == acts.last());
    lemma_run_plan(s, form, head);
    lemma_plan_stays(s, form, events);
    lemma_resolving_files(s, form, head);
    lemma_step_fails(s, st, events.last());
}

/// The reasons for which a step ends an upload badly.
proof fn lemma_step_fails(s: SettingsView, stage: StageView, event: EventView)
    requires
        stage !is Over,
        next_step(s, stage, event).1 matches ActionView::Reply(ok, _) && !ok,
    ensures
        event is Failed ==> next_step(s, stage, event).1 == ActionView::Reply(
            false,
            event->Failed_0,
        ),
        event !is Failed ==> match stage {
            StageView::Resolving(r, files) => event is Registry ==> planned(
                r,
                s.categories,
                event->Registry_0,
            ) is Err || files_refusal(files) is Some,
            StageView::Ingesting(_) => event !is Manifest,
            StageView::Building(_) => event !is Done,
            StageView::Validating(_) => event !is Report,
            StageView::Demoting(_) => event is Registry ==> json_text(event->Registry_0) is Err,
            StageView::Renaming(_, _) => true,
            StageView::MakingRoom(_) => event !is Done,
            StageView::Moving(_) => event !is Done,
            StageView::Hashing(_) => event !is Checksum,
            StageView::Entering(w) => event is Registry ==> is_no_registry_for(
                event->Registry_0,
                w.plan.name,
            ),
            StageView::Storing(_) => event !is Done,
            StageView::Regenerating(_) => event !is Report,
            StageView::Checking(_) => event !is Report,
            StageView::Over => true,
        },
{
}

/// An upload with a good form is started on: it is turned down at once only where the
/// form is, or where it has no need of the registry and still cannot be planned, or where
/// nothing arrived of a file.
pub proof fn law_good_uploads_are_started(s: SettingsView, form: FormView)
    requires
        request_of(form, s.username, s.password) is Ok,
        files_refusal(form.files) is None,
        request_of(form, s.username, s.password)->Ok_0.category matches Some(c) ==> s.categories.contains(c),
    ensures
        first_step(s, form).1 !is Reply,
{
}

/// A version that was to make room and could not ends the upload: the files that were
/// renamed by then have been, and the failure of the demotion is the answer.
pub proof fn law_failed_demotions_are_answered(
    s: SettingsView,
    w: WorkView,
    outcome: Result<(JsonView, Seq<char>), Fault>,
)
    ensures
        match outcome {
            Ok((after, _)) => next_step(s, StageView::Renaming(w, outcome), EventView::Done).1
                == ActionView::StoreRegistry(after),
            Err(Fault::Refused(t)) => next_step(s, StageView::Renaming(w, outcome), EventView::Done).1
                == ActionView::Reply(false, t),
            Err(Fault::Broken(t)) => next_step(s, StageView::Renaming(w, outcome), EventView::Done).1
                == ActionView::Reply(false, t),
        },
{
}

/// Whether a stage has the note of an upload for which no file was renamed: that there
/// was nothing to demote, where a demotion was asked for.
spec fn is_quiet(stage: StageView) -> bool {
    match stage {
        StageView::Building(w) => w.note == Seq::<char>::empty(),
        StageView::Validating(w) => w.note == Seq::<char>::empty(),
        StageView::Demoting(w) => w.note == Seq::<char>::empty() && w.plan.demote,
        StageView::Renaming(_, _) => false,
        StageView::MakingRoom(_) => false,
        StageView::Moving(w) => has_quiet_note(w),
        StageView::Hashing(w) => has_quiet_note(w),
        StageView::Entering(w) => has_quiet_note(w),
        StageView::Storing(w) => has_quiet_note(w),
        StageView::Regenerating(w) => has_quiet_note(w),
        StageView::Checking(w) => has_quiet_note(w),
        _ => true,
    }
}

/// The note of an upload for which no file was renamed.
spec fn has_quiet_note(w: WorkView) -> bool {
    w.note == if w.plan.demote {
        nothing_to_demote(w.plan.version)
    } else {
        Seq::empty()
    }
}

/// A step that renames no file keeps the note quiet.
proof fn lemma_step_quiet(s: SettingsView, stage: StageView, event: EventView)
    requires
        is_quiet(stage),
        next_step(s, stage, event).1 !is Rename,
    ensures
        is_quiet(next_step(s, stage, event).0),
{
}

/// The note of an upload that renames no file is quiet.
proof fn lemma_run_quiet(s: SettingsView, form: FormView, events: Seq<EventView>)
    requires
        forall|j: int|
            0 <= j < run(s, form, events).1.len() ==> #[trigger] run(s, form, events).1[j]
                !is Rename,
    ensures
        is_quiet(run(s, form, events).0),
    decreases events.len(),
{
    lemma_run(s, form, events);
    if events.len() > 0 {
        let head = events.drop_last();
        let acts = run(s, form, head).1;
        let all = run(s, form, events).1;
        assert forall|j: int| 0 <= j < acts.len() implies #[trigger] acts[j] !is Rename by {
            assert(all[j] == acts[j]);
        }
        lemma_run_quiet(s, form, head);
        assert(all[all.len() - 1] !is Rename);
        lemma_step_quiet(s, run(s, form, head).0, events.last());
    }
}

/// What the report on a demotion of nothing says.
pub open spec fn quiet_words(version: Seq<char>) -> Seq<char> {
    "No existing stable version <b>"@ + version + "</b> to demote — published as-is."@
}

/// The note on a demotion of nothing says so.
proof fn lemma_quiet_words(version: Seq<char>)
    ensures
        has_part(nothing_to_demote(version), quiet_words(version)),
{
    reveal_strlit("</b> to demote — published as-is.<br>");
    reveal_strlit("</b> to demote — published as-is.");
    reveal_strlit("<br>");
    let none = Seq::<char>::empty();
    lemma_has_part(none, quiet_words(version), "<br>"@);
    assert("</b> to demote — published as-is.<br>"@ =~= "</b> to demote — published as-is."@
        + "<br>"@);
    assert(none + quiet_words(version) + "<br>"@ =~= nothing_to_demote(version));
}

/// The answer to an upload that asked for a demotion, for which no file was renamed, tells
/// that no such version was there.
#[verifier::rlimit(30)]
pub proof fn law_answer_tells_that_nothing_was_demoted(
    s: SettingsView,
    form: FormView,
    events: Seq<EventView>,
)
    requires
        events.len() > 0,
        run(s, form, events).1.last() matches ActionView::Reply(ok, _) && ok,
        forall|j: int|
            0 <= j < run(s, form, events).1.len() ==> #[trigger] run(s, form, events).1[j]
                !is Rename,
        plan_made(s, form, events) is Some,
        plan_made(s, form, events)->0.demote,
    ensures
        ({
            let p = plan_made(s, form, events)->0;
            let text = run(s, form, events).1.last()->Reply_1;
            has_part(text, quiet_words(p.version))
        }),
{
    lemma_run(s, form, events);
    let head = events.drop_last();
    let (st, acts) = run(s, form, head);
    lemma_run(s, form, head);
    lemma_step_reported(s, st, events.last());
    lemma_run_plan(s, form, head);
    lemma_plan_stays(s, form, events);
    let all = run(s, form, events).1;
    assert forall|j: int| 0 <= j < acts.len() implies #[trigger] acts[j] !is Rename by {
        assert(all[j] == acts[j]);
    }
    lemma_run_quiet(s, form, head);
    let w = st->Checking_0;
    lemma_success_parts(s, w, events.last()->Report_0);
    let part = quiet_words(w.plan.version);
    lemma_quiet_words(w.plan.version);
    lemma_part_in_part(success_text(s, w, events.last()->Report_0), w.note, part);
}

} // verus!
