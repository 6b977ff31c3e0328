//! What an upload asks for, and whether it may have it.

use vstd::prelude::*;
use vstd::string::*;

use crate::codec::{json_text, parse};
use crate::error::{Fault, ShopError, agrees, broken, refused};
use crate::json::{Json, JsonView};
use crate::names::{
    is_valid_pkg_id, is_valid_version, lemma_trimmed_twice, package_id, sanitize_name, valid_id,
    valid_version,
};
use crate::registry::{
    category, category_in, has_rc, has_room, highest_rc, law_candidate_is_a_version,
    law_upload_version_is_free, lemma_highest_rc_holds, lemma_rc_number, lists, resolve_version,
    resolved, room_left, seen_text, versions,
};
use crate::replies::{has_part, lemma_has_part};
use crate::text::{
    NotANumber, ascii_lowercase, cat2, cat3, cat5, contains_text, decimal, empty, join, joined,
    lemma_decimal, lemma_parsed_decimal, lowercase, parse_u64, parsed, replaced, same, texts,
    to_ascii_lowercase, trim, trimmed,
};


verus! {

// ---------------------------------------------------------------------------
// The form
// ---------------------------------------------------------------------------

/// A field of the upload form.
#[derive(Clone, Copy, Debug, PartialEq, Eq, Structural)]
pub enum Field {
    Username,
    Password,
    Name,
    Version,
    Category,
    Demote,
    RcSlot,
    File,
    /// A field that means nothing to the shop.
    Other,
}

/// The field with this name.
pub open spec fn field_named(name: Seq<char>) -> Field {
    if name == "username"@ {
        Field::Username
    } else if name == "password"@ {
        Field::Password
    } else if name == "name"@ {
        Field::Name
    } else if name == "version"@ {
        Field::Version
    } else if name == "category"@ {
        Field::Category
    } else if name == "demote"@ {
        Field::Demote
    } else if name == "rc_slot"@ {
        Field::RcSlot
    } else if name == "file"@ {
        Field::File
    } else {
        Field::Other
    }
}

/// The field with this name.
pub fn field_kind(name: &str) -> (r: Field)
    ensures
        r == field_named(name@),
{
    if same(name, "username") {
        Field::Username
    } else if same(name, "password") {
        Field::Password
    } else if same(name, "name") {
        Field::Name
    } else if same(name, "version") {
        Field::Version
    } else if same(name, "category") {
        Field::Category
    } else if same(name, "demote") {
        Field::Demote
    } else if same(name, "rc_slot") {
        Field::RcSlot
    } else if same(name, "file") {
        Field::File
    } else {
        Field::Other
    }
}

/// A file of an upload form.
#[derive(Debug)]
pub struct UploadedFile {
    /// The name that the uploader gave it.
    pub name: String,
    /// How many bytes arrived, where the file can be read.
    pub size: Option<u64>,
}

/// What a file of an upload form says.
pub struct FileView {
    pub name: Seq<char>,
    pub size: Option<u64>,
}

impl View for UploadedFile {
    type V = FileView;

    open spec fn view(&self) -> FileView {
        FileView { name: self.name@, size: self.size }
    }
}

/// What the files of an upload form say.
pub open spec fn files_view(v: Seq<UploadedFile>) -> Seq<FileView> {
    v.map_values(|f: UploadedFile| f@)
}

/// An upload form, as far as it was filled in.
#[derive(Debug)]
pub struct UploadForm {
    pub username: Option<String>,
    pub password: Option<String>,
    pub name: Option<String>,
    pub version: Option<String>,
    pub category: Option<String>,
    pub demote: Option<String>,
    pub rc_slot: Option<String>,
    pub files: Vec<UploadedFile>,
}

/// What an upload form says.
pub struct FormView {
    pub username: Option<Seq<char>>,
    pub password: Option<Seq<char>>,
    pub name: Option<Seq<char>>,
    pub version: Option<Seq<char>>,
    pub category: Option<Seq<char>>,
    pub demote: Option<Seq<char>>,
    pub rc_slot: Option<Seq<char>>,
    pub files: Seq<FileView>,
}

impl View for UploadForm {
    type V = FormView;

    open spec fn view(&self) -> FormView {
        FormView {
            username: seen_text(self.username),
            password: seen_text(self.password),
            name: seen_text(self.name),
            version: seen_text(self.version),
            category: seen_text(self.category),
            demote: seen_text(self.demote),
            rc_slot: seen_text(self.rc_slot),
            files: files_view(self.files@),
        }
    }
}

impl FormView {
    /// The form after a text field was filled in; with nothing, where the text could
    /// not be read.
    pub open spec fn filled(self, field: Field, text: Option<Seq<char>>) -> FormView {
        match field {
            Field::Username => FormView { username: text, ..self },
            Field::Password => FormView { password: text, ..self },
            Field::Name => FormView { name: text, ..self },
            Field::Version => FormView { version: text, ..self },
            Field::Category => FormView { category: text, ..self },
            Field::Demote => FormView { demote: text, ..self },
            Field::RcSlot => FormView { rc_slot: text, ..self },
            Field::File => self,
            Field::Other => self,
        }
    }
}

impl UploadForm {
    /// A form that nothing was filled in.
    pub fn new() -> (r: UploadForm)
        ensures
            r@ == (FormView {
                username: None,
                password: None,
                name: None,
                version: None,
                category: None,
                demote: None,
                rc_slot: None,
                files: Seq::empty(),
            }),
    {
        let r = UploadForm {
            username: None,
            password: None,
            name: None,
            version: None,
            category: None,
            demote: None,
            rc_slot: None,
            files: Vec::new(),
        };
        assert(r@.files =~= Seq::<FileView>::empty());
        r
    }

    /// Fills in a text field. Of a field that comes twice the later counts.
    pub fn fill(&mut self, field: Field, text: Option<String>)
        ensures
            final(self)@ == old(self)@.filled(field, seen_text(text)),
    {
        match field {
            Field::Username => {
                self.username = text;
            },
            Field::Password => {
                self.password = text;
            },
            Field::Name => {
                self.name = text;
            },
            Field::Version => {
                self.version = text;
            },
            Field::Category => {
                self.category = text;
            },
            Field::Demote => {
                self.demote = text;
            },
            Field::RcSlot => {
                self.rc_slot = text;
            },
            Field::File => {},
            Field::Other => {},
        }
    }

    /// Adds a file; one without a name is called `upload.bin`.
    pub fn add_file(&mut self, name: Option<String>, size: Option<u64>)
        ensures
            final(self)@ == (FormView {
                files: old(self)@.files.push(
                    FileView {
                        name: match name {
                            Some(n) => n@,
                            None => "upload.bin"@,
                        },
                        size,
                    },
                ),
                ..old(self)@
            }),
    {
        let name = match name {
            Some(n) => n,
            None => "upload.bin".to_string(),
        };
        let ghost before = self.files@;
        let f = UploadedFile { name, size };
        let ghost added = f@;
        self.files.push(f);
        assert(files_view(self.files@) =~= files_view(before).push(added));
    }
}

// ---------------------------------------------------------------------------
// The request
// ---------------------------------------------------------------------------

/// What an upload asks for.
#[derive(Debug)]
pub struct Request {
    pub name: String,
    pub version: String,
    pub category: Option<String>,
    /// Whether the version that is listed is to make room.
    pub demote: bool,
    /// The number of the candidate that it is to become.
    pub rc_slot: Option<u64>,
}

/// What a request says.
pub struct RequestView {
    pub name: Seq<char>,
    pub version: Seq<char>,
    pub category: Option<Seq<char>>,
    pub demote: bool,
    pub rc_slot: Option<u64>,
}

impl View for Request {
    type V = RequestView;

    open spec fn view(&self) -> RequestView {
        RequestView {
            name: self.name@,
            version: self.version@,
            category: seen_text(self.category),
            demote: self.demote,
            rc_slot: self.rc_slot,
        }
    }
}

/// Whether a field says yes.
pub open spec fn says_yes(text: Option<Seq<char>>) -> bool {
    text matches Some(t) && (ascii_lowercase(t) == "1"@ || ascii_lowercase(t) == "true"@
        || ascii_lowercase(t) == "on"@ || ascii_lowercase(t) == "yes"@)
}

/// Whether a field says yes.
fn yes(text: &Option<String>) -> (r: bool)
    ensures
        r == says_yes(seen_text(*text)),
{
    match text {
        Some(t) => {
            let t = to_ascii_lowercase(t.as_str());
            let t = t.as_str();
            same(t, "1") || same(t, "true") || same(t, "on") || same(t, "yes")
        },
        None => false,
    }
}

/// Why a text is no number.
pub open spec fn number_problem(e: NotANumber) -> Seq<char> {
    match e {
        NotANumber::Empty => "cannot parse integer from empty string"@,
        NotANumber::InvalidDigit => "invalid digit found in string"@,
        NotANumber::TooLarge => "number too large to fit in target type"@,
    }
}

/// The candidate number that a field names: none where the field is missing or blank.
pub open spec fn slot_asked(text: Option<Seq<char>>) -> Result<Option<u64>, Fault> {
    match text {
        Some(t) => if trimmed(t).len() == 0 {
            Ok(None)
        } else {
            match parsed(trimmed(t)) {
                Ok(n) => if n < 1 {
                    Err(Fault::Refused("rc_slot must be >= 1"@))
                } else {
                    Ok(Some(n))
                },
                Err(e) => Err(
                    Fault::Refused("rc_slot must be a positive integer: "@ + number_problem(e)),
                ),
            }
        },
        None => Ok(None),
    }
}

/// The candidate number that a field names.
fn slot(text: &Option<String>) -> (r: Result<Option<u64>, ShopError>)
    ensures
        match r {
            Ok(n) => slot_asked(seen_text(*text)) matches Ok(m) && m == n,
            Err(e) => slot_asked(seen_text(*text)) matches Err(f) && f == e@,
        },
{
    match text {
        Some(t) => {
            let t = trim(t.as_str());
            if empty(t.as_str()) {
                return Ok(None);
            }
            match parse_u64(t.as_str()) {
                Ok(n) => if n < 1 {
                    Err(refused("rc_slot must be >= 1"))
                } else {
                    Ok(Some(n))
                },
                Err(e) => {
                    let why = match e {
                        NotANumber::Empty => "cannot parse integer from empty string",
                        NotANumber::InvalidDigit => "invalid digit found in string",
                        NotANumber::TooLarge => "number too large to fit in target type",
                    };
                    let m = cat2("rc_slot must be a positive integer: ", why);
                    Err(ShopError::Refused(m))
                },
            }
        },
        None => Ok(None),
    }
}

/// A text without white space at its ends, where something is left of it.
pub open spec fn filled_in(text: Option<Seq<char>>) -> Option<Seq<char>> {
    match text {
        Some(t) => if trimmed(t).len() == 0 {
            None
        } else {
            Some(trimmed(t))
        },
        None => None,
    }
}

/// A text without white space at its ends, where something is left of it.
fn filled(text: &Option<String>) -> (r: Option<String>)
    ensures
        seen_text(r) == filled_in(seen_text(*text)),
{
    match text {
        Some(t) => {
            let t = trim(t.as_str());
            if empty(t.as_str()) {
                None
            } else {
                Some(t)
            }
        },
        None => None,
    }
}

/// Whether a form carries the credentials of the shop.
pub open spec fn authentic(form: FormView, username: Seq<char>, password: Seq<char>) -> bool {
    form.username == Some(username) && form.password == Some(password)
}

/// What a form asks for; or why it is refused.
pub open spec fn request_of(form: FormView, username: Seq<char>, password: Seq<char>) -> Result<
    RequestView,
    Fault,
> {
    if !authentic(form, username, password) {
        Err(Fault::Refused("authentication failed (wrong username/password)"@))
    } else if form.files.len() == 0 {
        Err(Fault::Refused("no file uploaded"@))
    } else if filled_in(form.name) is None {
        Err(Fault::Refused("missing 'name'"@))
    } else if !valid_id(package_id(filled_in(form.name)->0)) {
        Err(
            Fault::Refused(
                "invalid package id '"@ + package_id(filled_in(form.name)->0)
                    + "' (expected lowercase reverse-domain, e.g. com.author.package)"@,
            ),
        )
    } else if filled_in(form.version) is None {
        Err(Fault::Refused("missing 'version'"@))
    } else if !valid_version(filled_in(form.version)->0) {
        Err(
            Fault::Refused(
                "invalid version '"@ + filled_in(form.version)->0
                    + "' (expected semver, e.g. 1.0.0)"@,
            ),
        )
    } else {
        match slot_asked(form.rc_slot) {
            Ok(rc_slot) => Ok(
                RequestView {
                    name: package_id(filled_in(form.name)->0),
                    version: filled_in(form.version)->0,
                    category: form.category,
                    demote: says_yes(form.demote),
                    rc_slot,
                },
            ),
            Err(f) => Err(f),
        }
    }
}

/// Whether a text that may be missing is this one.
fn is_text(text: &Option<String>, wanted: &str) -> (r: bool)
    ensures
        r == (seen_text(*text) == Some(wanted@)),
{
    match text {
        Some(t) => same(t.as_str(), wanted),
        None => false,
    }
}

/// Reads what a form asks for. The credentials are looked at before anything else.
pub fn check_request(form: &UploadForm, username: &str, password: &str) -> (r: Result<
    Request,
    ShopError,
>)
    ensures
        agrees(r, request_of(form@, username@, password@)),
{
    if !is_text(&form.username, username) || !is_text(&form.password, password) {
        return Err(refused("authentication failed (wrong username/password)"));
    }
    if form.files.len() == 0 {
        return Err(refused("no file uploaded"));
    }
    let name = match filled(&form.name) {
        Some(n) => sanitize_name(n.as_str()),
        None => {
            return Err(refused("missing 'name'"));
        },
    };
    if !is_valid_pkg_id(name.as_str()) {
        let m = cat3(
            "invalid package id '",
            name.as_str(),
            "' (expected lowercase reverse-domain, e.g. com.author.package)",
        );
        return Err(ShopError::Refused(m));
    }
    let version = match filled(&form.version) {
        Some(v) => v,
        None => {
            return Err(refused("missing 'version'"));
        },
    };
    if !is_valid_version(version.as_str()) {
        let m = cat3("invalid version '", version.as_str(), "' (expected semver, e.g. 1.0.0)");
        return Err(ShopError::Refused(m));
    }
    let demote = yes(&form.demote);
    match slot(&form.rc_slot) {
        Ok(rc_slot) => {
            let category = match &form.category {
                Some(c) => Some(c.clone()),
                None => None,
            };
            Ok(Request { name, version, category, demote, rc_slot })
        },
        Err(e) => Err(e),
    }
}

// ---------------------------------------------------------------------------
// The plan
// ---------------------------------------------------------------------------

/// Under what an upload is published.
#[derive(Debug)]
pub struct Plan {
    pub name: String,
    /// The version that the upload asked for.
    pub asked: String,
    pub version: String,
    /// Whether the version is another one than the upload asked for.
    pub bumped: bool,
    pub category: String,
    pub demote: bool,
    pub rc_slot: Option<u64>,
}

/// What a plan says.
pub struct PlanView {
    pub name: Seq<char>,
    pub asked: Seq<char>,
    pub version: Seq<char>,
    pub bumped: bool,
    pub category: Seq<char>,
    pub demote: bool,
    pub rc_slot: Option<u64>,
}

impl View for Plan {
    type V = PlanView;

    open spec fn view(&self) -> PlanView {
        PlanView {
            name: self.name@,
            asked: self.asked@,
            version: self.version@,
            bumped: self.bumped,
            category: self.category@,
            demote: self.demote,
            rc_slot: self.rc_slot,
        }
    }
}

/// Whether the registry has a say in a request: it numbers a candidate, or knows the
/// category.
pub open spec fn asks_registry(r: RequestView) -> bool {
    !r.demote || r.category is None
}

/// The category of a request: the one that it names, that of the package, or the one
/// for everything else.
pub open spec fn category_of(r: RequestView, repo: JsonView) -> Seq<char> {
    match r.category {
        Some(c) => c,
        None => match category(repo, r.name) {
            Some(c) => c,
            None => "Misc"@,
        },
    }
}

/// The version of a request, and whether it is another one than was asked for.
pub open spec fn version_of(r: RequestView, repo: JsonView) -> (Seq<char>, bool) {
    if r.demote {
        (r.version, false)
    } else {
        resolved(repo, r.name, r.version)
    }
}

/// Under what a request is published; or why it is refused.
pub open spec fn plan_of(r: RequestView, categories: Seq<Seq<char>>, repo: JsonView) -> Result<
    PlanView,
    Fault,
> {
    if !r.demote && !has_room(repo, r.name, r.version) {
        Err(Fault::Broken("no release candidate number is left"@))
    } else if !categories.contains(category_of(r, repo)) {
        Err(
            Fault::Refused(
                "invalid category '"@ + category_of(r, repo) + "' (choose from: "@ + joined(
                    categories,
                    ", "@,
                ) + ")"@,
            ),
        )
    } else {
        Ok(
            PlanView {
                name: r.name,
                asked: r.version,
                version: version_of(r, repo).0,
                bumped: version_of(r, repo).1,
                category: category_of(r, repo),
                demote: r.demote,
                rc_slot: r.rc_slot,
            },
        )
    }
}

/// Under what a request is published, after the registry that a text holds. The text
/// is not read where the registry has no say.
pub open spec fn planned(r: RequestView, categories: Seq<Seq<char>>, registry: Seq<char>) -> Result<
    PlanView,
    Fault,
> {
    if asks_registry(r) {
        match json_text(registry) {
            Ok(repo) => plan_of(r, categories, repo),
            Err(m) => Err(Fault::Refused(m)),
        }
    } else {
        plan_of(r, categories, JsonView::Null)
    }
}

/// Whether the registry has a say in a request.
pub fn needs_registry(r: &Request) -> (b: bool)
    ensures
        b == asks_registry(r@),
{
    !r.demote || r.category.is_none()
}

/// Decides under what a request is published.
pub fn make_plan(r: Request, categories: &Vec<String>, repo: &Json) -> (p: Result<Plan, ShopError>)
    ensures
        agrees(p, plan_of(r@, texts(categories@), repo@)),
{
    let ghost model = r@;
    let asked = r.version.clone();
    if !r.demote && !room_left(repo, r.name.as_str(), r.version.as_str()) {
        return Err(broken("no release candidate number is left"));
    }
    let (version, bumped) = if r.demote {
        (r.version, false)
    } else {
        resolve_version(repo, r.name.as_str(), r.version.as_str())
    };
    let category = match r.category {
        Some(c) => c,
        None => match category_in(repo, r.name.as_str()) {
            Some(c) => c,
            None => "Misc".to_string(),
        },
    };
    assert(category@ == category_of(model, repo@));
    if !contains_text(categories, category.as_str()) {
        let list = join(categories, ", ");
        let m = cat5(
            "invalid category '",
            category.as_str(),
            "' (choose from: ",
            list.as_str(),
            ")",
        );
        return Err(ShopError::Refused(m));
    }
    Ok(
        Plan {
            name: r.name,
            asked,
            version,
            bumped,
            category,
            demote: r.demote,
            rc_slot: r.rc_slot,
        },
    )
}

/// Decides under what a request is published, after the registry that a text holds.
pub fn plan_upload(r: Request, categories: &Vec<String>, registry: &str) -> (p: Result<
    Plan,
    ShopError,
>)
    ensures
        agrees(p, planned(r@, texts(categories@), registry@)),
{
    if needs_registry(&r) {
        match parse(registry) {
            Ok(repo) => make_plan(r, categories, &repo),
            Err(m) => Err(ShopError::Refused(m)),
        }
    } else {
        make_plan(r, categories, &Json::Null)
    }
}

// ---------------------------------------------------------------------------
// The files
// ---------------------------------------------------------------------------

/// Whether nothing arrived of a file.
pub open spec fn is_void(f: FileView) -> bool {
    f.size is None || f.size == Some(0u64)
}

/// The first file of which nothing arrived.
pub open spec fn first_void(files: Seq<FileView>) -> Option<Seq<char>>
    decreases files.len(),
{
    if files.len() == 0 {
        None
    } else if is_void(files[0]) {
        Some(files[0].name)
    } else {
        first_void(files.drop_first())
    }
}

/// Why the files of a form are refused.
pub open spec fn files_refusal(files: Seq<FileView>) -> Option<Fault> {
    match first_void(files) {
        Some(name) => Some(
            Fault::Refused("uploaded file '"@ + name + "' is empty or unreadable"@),
        ),
        None => None,
    }
}

/// Looks whether something arrived of every file.
pub fn check_files(files: &Vec<UploadedFile>) -> (r: Result<(), ShopError>)
    ensures
        match r {
            Ok(_) => files_refusal(files_view(files@)) is None,
            Err(e) => files_refusal(files_view(files@)) == Some(e@),
        },
{
    let ghost all = files_view(files@);
    let mut i: usize = 0;
    assert(all.skip(0) =~= all);
    while i < files.len()
        invariant
            i <= files.len(),
            all == files_view(files@),
            first_void(all) == first_void(all.skip(i as int)),
        decreases files.len() - i,
    {
        assert(all.skip(i as int)[0] == files@[i as int]@);
        assert(all.skip(i as int).drop_first() =~= all.skip(i + 1));
        let void = match files[i].size {
            Some(n) => n == 0,
            None => true,
        };
        if void {
            let m = cat3("uploaded file '", files[i].name.as_str(), "' is empty or unreadable");
            return Err(ShopError::Refused(m));
        }
        i = i + 1;
    }
    Ok(())
}

// ---------------------------------------------------------------------------
// Laws
// ---------------------------------------------------------------------------

/// A form without the credentials of the shop is refused, and always with the same
/// words: nothing else in it is looked at.
pub proof fn law_credentials_come_first(form: FormView, username: Seq<char>, password: Seq<char>)
    requires
        !authentic(form, username, password),
    ensures
        request_of(form, username, password) matches Err(f) && f == Fault::Refused(
            "authentication failed (wrong username/password)"@,
        ),
{
}

/// Whatever is published has a valid id and a valid version, and lies in a category
/// of the shop.
pub proof fn law_plans_are_valid(
    form: FormView,
    username: Seq<char>,
    password: Seq<char>,
    categories: Seq<Seq<char>>,
    registry: Seq<char>,
)
    requires
        request_of(form, username, password) is Ok,
        planned(request_of(form, username, password)->Ok_0, categories, registry) is Ok,
    ensures
        ({
            let p = planned(request_of(form, username, password)->Ok_0, categories, registry)->Ok_0;
            &&& valid_id(p.name)
            &&& valid_version(p.version)
            &&& categories.contains(p.category)
            &&& p.rc_slot matches Some(n) ==> n >= 1
        }),
{
    let r = request_of(form, username, password)->Ok_0;
    if !r.demote {
        let repo = json_text(registry)->Ok_0;
        law_candidate_is_a_version(
            r.version,
            (highest_rc(versions(repo, r.name)->0, r.version)
                + 1) as nat,
        );
    }
}

/// An upload that asks for no demotion takes no version that is listed. It takes the one
/// that it asked for, unless that is listed.
pub proof fn law_plans_take_a_free_version(
    r: RequestView,
    categories: Seq<Seq<char>>,
    repo: JsonView,
)
    requires
        !r.demote,
        plan_of(r, categories, repo) is Ok,
    ensures
        ({
            let p = plan_of(r, categories, repo)->Ok_0;
            &&& !lists(repo, r.name, p.version)
            &&& p.bumped <==> lists(repo, r.name, p.asked)
            &&& !p.bumped ==> p.version == p.asked
        }),
{
    law_upload_version_is_free(repo, r.name, r.version);
}

/// Whether a text field was filled in with more than white space.
pub open spec fn is_filled(text: Option<Seq<char>>) -> bool {
    text matches Some(t) && trimmed(t).len() > 0
}

/// What an upload asks for is what its form says. The name and the version are those of
/// the form, without white space at their ends, and the name as a package id. A category
/// is asked for as it is written. A candidate number in digits is that number, and a
/// blank field names none.
pub proof fn law_request_says_what_the_form_says(
    form: FormView,
    username: Seq<char>,
    password: Seq<char>,
    n: u64,
)
    requires
        request_of(form, username, password) is Ok,
    ensures
        ({
            let r = request_of(form, username, password)->Ok_0;
            &&& form.username == Some(username)
            &&& form.password == Some(password)
            &&& form.files.len() > 0
            &&& form.name matches Some(name) && r.name == replaced(
                lowercase(trimmed(name)),
                ' ',
                '.',
            )
            &&& form.version matches Some(version) && r.version == trimmed(version)
            &&& r.category == form.category
            &&& r.demote <==> (form.demote matches Some(d) && (ascii_lowercase(d) == "1"@
                || ascii_lowercase(d) == "true"@ || ascii_lowercase(d) == "on"@ || ascii_lowercase(d)
                == "yes"@))
            &&& !is_filled(form.rc_slot) ==> r.rc_slot is None
            &&& is_filled(form.rc_slot) ==> r.rc_slot is Some && r.rc_slot->0 >= 1
            &&& (form.rc_slot matches Some(t) && trimmed(t) == decimal(n as nat)) ==> r.rc_slot
                == Some(n)
        }),
{
    lemma_trimmed_twice(form.name->0);
    lemma_parsed_decimal(n);
    lemma_decimal(n as nat);
}

/// A form is turned down for what it lacks and for nothing else: with the credentials of
/// the shop, a file, a name that makes a package id, a version and a candidate number
/// from one on, or none, it is a request.
pub proof fn law_good_forms_are_requests(
    form: FormView,
    username: Seq<char>,
    password: Seq<char>,
    n: u64,
)
    requires
        form.username == Some(username),
        form.password == Some(password),
        form.files.len() > 0,
        form.name matches Some(name) && valid_id(replaced(lowercase(trimmed(name)), ' ', '.'))
            && trimmed(name).len() > 0,
        form.version matches Some(version) && valid_version(trimmed(version))
            && trimmed(version).len() > 0,
        !is_filled(form.rc_slot) || (n >= 1 && (form.rc_slot matches Some(t) && trimmed(t)
            == decimal(n as nat))),
    ensures
        request_of(form, username, password) is Ok,
{
    lemma_trimmed_twice(form.name->0);
    lemma_parsed_decimal(n);
}

/// An upload goes where its request says. The category is the one that the request names,
/// whatever the registry holds; where it names none, it is the one that the registry has
/// for the package, or the one for everything else. The name, the demand for room and the
/// candidate number are those of the request.
pub proof fn law_plan_follows_the_request(
    r: RequestView,
    categories: Seq<Seq<char>>,
    registry: Seq<char>,
)
    requires
        planned(r, categories, registry) is Ok,
    ensures
        ({
            let p = planned(r, categories, registry)->Ok_0;
            &&& p.name == r.name
            &&& p.asked == r.version
            &&& p.demote == r.demote
            &&& p.rc_slot == r.rc_slot
            &&& categories.contains(p.category)
            &&& r.category matches Some(c) ==> p.category == c
            &&& r.category is None ==> (json_text(registry) matches Ok(repo) && match category(
                repo,
                r.name,
            ) {
                Some(c) => p.category == c,
                None => p.category == "Misc"@,
            })
        }),
{
}

/// An upload that asks for no room takes the version that it asks for, where that is
/// free; else it becomes a candidate of that version, with a number above those of all
/// candidates that are listed. An upload that asks for room takes the version that it
/// asks for.
pub proof fn law_plan_takes_the_next_candidate(
    r: RequestView,
    categories: Seq<Seq<char>>,
    registry: Seq<char>,
    k: u64,
)
    requires
        planned(r, categories, registry) is Ok,
    ensures
        ({
            let p = planned(r, categories, registry)->Ok_0;
            if r.demote {
                p.version == r.version && !p.bumped
            } else {
                &&& json_text(registry) is Ok
                &&& ({
                    let repo = json_text(registry)->Ok_0;
                    if lists(repo, r.name, r.version) {
                        &&& p.bumped
                        &&& exists|n: u64|
                            n >= 1 && p.version == r.version + "-rc."@ + #[trigger] decimal(
                                n as nat,
                            ) && (lists(repo, r.name, r.version + "-rc."@ + decimal(k as nat))
                                ==> k < n) && (n == 1 || has_rc(
                                versions(repo, r.name)->0,
                                r.version,
                                (n - 1) as u64,
                            ))
                    } else {
                        p.version == r.version && !p.bumped
                    }
                })
            }
        }),
{
    if !r.demote {
        let repo = json_text(registry)->Ok_0;
        if lists(repo, r.name, r.version) {
            let m = versions(repo, r.name)->0;
            lemma_highest_rc_holds(m, r.version);
            lemma_rc_number(r.version, k);
            let n = (highest_rc(m, r.version) + 1) as u64;
            let p = planned(r, categories, registry)->Ok_0;
            assert(p.version == r.version + "-rc."@ + decimal(n as nat));
        }
    }
}

/// An upload is refused for its category only where the shop does not have it.
pub proof fn law_categories_of_the_shop_are_taken(
    r: RequestView,
    categories: Seq<Seq<char>>,
    registry: Seq<char>,
)
    requires
        r.category matches Some(c) && categories.contains(c),
        r.demote || (json_text(registry) matches Ok(repo) && has_room(repo, r.name, r.version)),
    ensures
        planned(r, categories, registry) is Ok,
{
}

/// The files of a form are refused exactly where nothing arrived of one of them.
pub proof fn law_void_files_are_refused(files: Seq<FileView>)
    ensures
        files_refusal(files) is Some <==> exists|i: int|
            0 <= i < files.len() && ((#[trigger] files[i]).size is None || files[i].size == Some(
                0u64,
            )),
    decreases files.len(),
{
    if files.len() > 0 {
        let rest = files.drop_first();
        law_void_files_are_refused(rest);
        if !is_void(files[0]) {
            if files_refusal(rest) is Some {
                let i = choose|i: int|
                    0 <= i < rest.len() && ((#[trigger] rest[i]).size is None || rest[i].size
                        == Some(0u64));
                assert(files[i + 1] == rest[i]);
            }
            assert forall|i: int|
                0 <= i < files.len() && ((#[trigger] files[i]).size is None || files[i].size
                    == Some(0u64)) implies files_refusal(rest) is Some by {
                assert(rest[i - 1] == files[i]);
            }
        } else {
            assert(files[0].size is None || files[0].size == Some(0u64));
        }
    }
}

/// A field of the form goes by its own name, and filling it in leaves the others alone.
pub proof fn law_fields_are_told_apart(form: FormView, text: Option<Seq<char>>)
    ensures
        form.filled(field_named("username"@), text) == (FormView { username: text, ..form }),
        form.filled(field_named("password"@), text) == (FormView { password: text, ..form }),
        form.filled(field_named("name"@), text) == (FormView { name: text, ..form }),
        form.filled(field_named("version"@), text) == (FormView { version: text, ..form }),
        form.filled(field_named("category"@), text) == (FormView { category: text, ..form }),
        form.filled(field_named("demote"@), text) == (FormView { demote: text, ..form }),
        form.filled(field_named("rc_slot"@), text) == (FormView { rc_slot: text, ..form }),
        field_named("file"@) == Field::File,
{
    reveal_strlit("username");
    reveal_strlit("password");
    reveal_strlit("name");
    reveal_strlit("version");
    reveal_strlit("category");
    reveal_strlit("demote");
    reveal_strlit("rc_slot");
    reveal_strlit("file");
    assert("username"@[0] == 'u' && "password"@[0] == 'p' && "category"@[0] == 'c');
    assert("name"@[0] == 'n' && "file"@[0] == 'f');
    assert("version"@[0] == 'v' && "rc_slot"@[0] == 'r');
    assert("username"@.len() == 8 && "password"@.len() == 8 && "category"@.len() == 8);
    assert("name"@.len() == 4 && "file"@.len() == 4 && "demote"@.len() == 6);
    assert("version"@.len() == 7 && "rc_slot"@.len() == 7);
}

/// A request is planned wherever the registry can be read, if it has a say, a candidate
/// number is left where one is needed, and the category that the registry has for the
/// package, or the one for everything else, is one of the shop.
pub proof fn law_requests_without_a_category_are_planned(
    r: RequestView,
    categories: Seq<Seq<char>>,
    registry: Seq<char>,
)
    requires
        r.category is None,
        json_text(registry) is Ok,
        r.demote || has_room(json_text(registry)->Ok_0, r.name, r.version),
        match category(json_text(registry)->Ok_0, r.name) {
            Some(c) => categories.contains(c),
            None => categories.contains("Misc"@),
        },
    ensures
        planned(r, categories, registry) is Ok,
{
}

/// A form that is turned down is told why: the credentials come first, then the files,
/// the name, the version and the candidate number.
pub proof fn law_refusals_say_why(form: FormView, username: Seq<char>, password: Seq<char>)
    ensures
        ({
            let good = form.username == Some(username) && form.password == Some(password);
            let named = is_filled(form.name) && valid_id(
                replaced(lowercase(trimmed(form.name->0)), ' ', '.'),
            );
            let r = request_of(form, username, password);
            &&& !good ==> r == Err::<RequestView, Fault>(
                Fault::Refused("authentication failed (wrong username/password)"@),
            )
            &&& good && form.files.len() == 0 ==> r == Err::<RequestView, Fault>(
                Fault::Refused("no file uploaded"@),
            )
            &&& good && form.files.len() > 0 && !is_filled(form.name) ==> r == Err::<
                RequestView,
                Fault,
            >(Fault::Refused("missing 'name'"@))
            &&& good && form.files.len() > 0 && is_filled(form.name) && !named ==> r == Err::<
                RequestView,
                Fault,
            >(
                Fault::Refused(
                    "invalid package id '"@ + replaced(
                        lowercase(trimmed(form.name->0)),
                        ' ',
                        '.',
                    ) + "' (expected lowercase reverse-domain, e.g. com.author.package)"@,
                ),
            )
            &&& good && form.files.len() > 0 && named && !is_filled(form.version) ==> r == Err::<
                RequestView,
                Fault,
            >(Fault::Refused("missing 'version'"@))
            &&& good && form.files.len() > 0 && named && is_filled(form.version) && !valid_version(
                trimmed(form.version->0),
            ) ==> r == Err::<RequestView, Fault>(
                Fault::Refused(
                    "invalid version '"@ + trimmed(form.version->0)
                        + "' (expected semver, e.g. 1.0.0)"@,
                ),
            )
            &&& good && form.files.len() > 0 && named && is_filled(form.version) && valid_version(
                trimmed(form.version->0),
            ) && is_filled(form.rc_slot) && trimmed(form.rc_slot->0) == "0"@ ==> r == Err::<
                RequestView,
                Fault,
            >(Fault::Refused("rc_slot must be >= 1"@))
        }),
{
    lemma_trimmed_twice(form.name->0);
    lemma_parsed_decimal(0);
    reveal_strlit("0");
    assert(decimal(0) =~= "0"@);
}

/// Whether a failure is a refusal whose words hold a text.
pub open spec fn is_refusal_of(f: Fault, part: Seq<char>) -> bool {
    f matches Fault::Refused(t) && has_part(t, part)
}

/// Where a file is refused because nothing arrived of it, the answer names a file of which
/// nothing arrived, and none before it is such a file.
pub proof fn law_void_file_is_named(files: Seq<FileView>, i: int)
    requires
        0 <= i < files.len(),
        files[i].size is None || files[i].size == Some(0u64),
        forall|j: int|
            0 <= j < i ==> (#[trigger] files[j]).size is Some && files[j].size->0 > 0,
    ensures
        files_refusal(files) matches Some(f) && is_refusal_of(f, "'"@ + files[i].name + "'"@),
    decreases files.len(),
{
    if i > 0 {
        let rest = files.drop_first();
        assert(rest[i - 1] == files[i]);
        assert forall|j: int| 0 <= j < i - 1 implies (#[trigger] rest[j]).size is Some
            && rest[j].size->0 > 0 by {
            assert(rest[j] == files[j + 1]);
        }
        assert(!is_void(files[0]));
        law_void_file_is_named(rest, i - 1);
    } else {
        let name = files[0].name;
        reveal_strlit("uploaded file '");
        reveal_strlit("uploaded file ");
        reveal_strlit("'");
        reveal_strlit("' is empty or unreadable");
        reveal_strlit(" is empty or unreadable");
        let part = "'"@ + name + "'"@;
        lemma_has_part("uploaded file "@, part, " is empty or unreadable"@);
        assert("uploaded file '"@ + name + "' is empty or unreadable"@ =~= "uploaded file "@ + part
            + " is empty or unreadable"@);
    }
}

/// A category that the shop does not have is refused, and the answer names it and those
/// that the shop has.
pub proof fn law_unknown_categories_are_named(
    r: RequestView,
    categories: Seq<Seq<char>>,
    registry: Seq<char>,
    c: Seq<char>,
)
    requires
        r.category == Some(c),
        !categories.contains(c),
        !r.demote ==> json_text(registry) is Ok && has_room(
            json_text(registry)->Ok_0,
            r.name,
            r.version,
        ),
    ensures
        planned(r, categories, registry) matches Err(f) && is_refusal_of(f, c) && is_refusal_of(
            f,
            joined(categories, ", "@),
        ),
{
    let list = joined(categories, ", "@);
    let front = "invalid category '"@;
    let middle = "' (choose from: "@;
    lemma_has_part(front, c, middle + list + ")"@);
    lemma_has_part(front + c + middle, list, ")"@);
    assert(front + c + middle + list + ")"@ =~= front + c + (middle + list + ")"@));
}

/// A candidate number is refused where it is none: the answer tells letters from numbers
/// that are too large.
pub proof fn law_odd_slots_are_refused(text: Seq<char>)
    requires
        trimmed(text).len() > 0,
    ensures
        parsed(trimmed(text)) == Err::<u64, NotANumber>(NotANumber::InvalidDigit) ==> (slot_asked(
            Some(text),
        ) matches Err(f) && is_refusal_of(f, "invalid digit found in string"@)),
        parsed(trimmed(text)) == Err::<u64, NotANumber>(NotANumber::TooLarge) ==> (slot_asked(
            Some(text),
        ) matches Err(f) && is_refusal_of(f, "number too large to fit in target type"@)),
{
    let front = "rc_slot must be a positive integer: "@;
    let none = Seq::<char>::empty();
    let odd = "invalid digit found in string"@;
    let large = "number too large to fit in target type"@;
    lemma_has_part(front, odd, none);
    lemma_has_part(front, large, none);
    assert(front + odd + none =~= front + odd);
    assert(front + large + none =~= front + large);
}

} // verus!
