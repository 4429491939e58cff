use crate::data::{
    entries_of, option_view, ReqAuth, ReqBody, ReqConfig, ReqMethod, ReqMultipartValue, ReqParam,
};
use crate::json::JsonValue;
use crate::model::{BodyModel, Entries, Method, PartModel, TargetModel, TaskModel};
use crate::strmap::{ascending, keys_of, StrMap};
use crate::task::{Req, ReqTask};
use crate::text::same_text;
use vstd::prelude::*;
use vstd::string::StringExecFns;

verus! {

/// Why a task is not well defined, over plain texts.
pub enum DefinitionFailure {
    MissingMethod,
    DuplicateMethod,
    BodyConflict,
    MalformedPart(Seq<char>),
}

/// Why a task is not well defined.
#[derive(Debug, PartialEq, Eq)]
pub enum DefinitionError {
    /// No method is given with an address.
    MissingMethod,
    /// More than one method is given with an address.
    DuplicateMethod,
    /// More than one kind of body is given.
    BodyConflict,
    /// The part of this name is neither a text nor the path of a file.
    MalformedPart(String),
}

impl View for DefinitionError {
    type V = DefinitionFailure;

    open spec fn view(&self) -> DefinitionFailure {
        match self {
            DefinitionError::MissingMethod => DefinitionFailure::MissingMethod,
            DefinitionError::DuplicateMethod => DefinitionFailure::DuplicateMethod,
            DefinitionError::BodyConflict => DefinitionFailure::BodyConflict,
            DefinitionError::MalformedPart(n) => DefinitionFailure::MalformedPart(n@),
        }
    }
}

impl DefinitionError {
    /// The error as a sentence.
    pub fn message(&self) -> (m: String)
        ensures
            m@ == self.message_text(),
    {
        match self {
            DefinitionError::MissingMethod => String::from_str(
                "missing definition of method and url",
            ),
            DefinitionError::DuplicateMethod => String::from_str(
                "duplicate definition of method and url",
            ),
            DefinitionError::BodyConflict => String::from_str(
                "more than one kind of body is defined",
            ),
            DefinitionError::MalformedPart(n) => {
                let mut m = String::from_str("malformed multipart entry \"");
                m.append(n.as_str());
                m.append("\"");
                m
            },
        }
    }
}

/// The fields of a task that are named by a method: each may hold an address.
#[derive(Debug, PartialEq, Eq)]
pub struct RawTarget {
    pub get: Option<String>,
    pub post: Option<String>,
    pub put: Option<String>,
    pub delete: Option<String>,
    pub head: Option<String>,
    pub options: Option<String>,
    pub connect: Option<String>,
    pub patch: Option<String>,
    pub trace: Option<String>,
}

/// The target that a field stands for, where the field is populated.
pub open spec fn target_in(method: Method, field: Option<String>) -> Seq<TargetModel> {
    match field {
        Some(url) => seq![TargetModel { method, url: url@ }],
        None => Seq::empty(),
    }
}

impl RawTarget {
    /// The targets of the populated fields.
    pub open spec fn populated(&self) -> Seq<TargetModel> {
        target_in(Method::Get, self.get) + target_in(Method::Post, self.post) + target_in(
            Method::Put,
            self.put,
        ) + target_in(Method::Delete, self.delete) + target_in(Method::Head, self.head)
            + target_in(Method::Options, self.options) + target_in(Method::Connect, self.connect)
            + target_in(Method::Patch, self.patch) + target_in(Method::Trace, self.trace)
    }
}

/// The target of a task: that of the one populated field.
pub open spec fn target_of(populated: Seq<TargetModel>) -> Result<TargetModel, DefinitionFailure> {
    if populated.len() == 0 {
        Err(DefinitionFailure::MissingMethod)
    } else if populated.len() == 1 {
        Ok(populated[0])
    } else {
        Err(DefinitionFailure::DuplicateMethod)
    }
}

/// Adds the target of a field to `found` where the field is populated.
fn collect(method: Method, field: Option<String>, found: &mut Vec<ReqMethod>)
    ensures
        target_views(final(found)@) == target_views(old(found)@) + target_in(method, field),
{
    let ghost before = target_views(found@);
    match field {
        Some(url) => {
            found.push(ReqMethod::new(method, url));
            assert(target_views(found@) =~= before + target_in(method, field));
        },
        None => {
            assert(target_views(found@) =~= before + target_in(method, field));
        },
    }
}

/// The views of a list of targets.
pub open spec fn target_views(list: Seq<ReqMethod>) -> Seq<TargetModel> {
    list.map_values(|m: ReqMethod| m@)
}

impl ReqMethod {
    /// The target of a task: exactly one of the fields named by a method
    /// must be populated.
    pub fn from_raw(raw: RawTarget) -> (r: Result<ReqMethod, DefinitionError>)
        ensures
            match target_of(raw.populated()) {
                Ok(t) => r matches Ok(m) && m@ == t,
                Err(e) => r matches Err(x) && x@ == e,
            },
    {
        let mut found: Vec<ReqMethod> = Vec::new();
        assert(target_views(found@) =~= Seq::empty());
        let RawTarget { get, post, put, delete, head, options, connect, patch, trace } = raw;
        collect(Method::Get, get, &mut found);
        collect(Method::Post, post, &mut found);
        collect(Method::Put, put, &mut found);
        collect(Method::Delete, delete, &mut found);
        collect(Method::Head, head, &mut found);
        collect(Method::Options, options, &mut found);
        collect(Method::Connect, connect, &mut found);
        collect(Method::Patch, patch, &mut found);
        collect(Method::Trace, trace, &mut found);
        assert(target_views(found@) =~= raw.populated());
        if found.len() == 0 {
            Err(DefinitionError::MissingMethod)
        } else if found.len() == 1 {
            let m = found.remove(0);
            Ok(m)
        } else {
            Err(DefinitionError::DuplicateMethod)
        }
    }
}

/// A part of a multipart body as it is written: a text, a table of texts, or
/// anything else.
#[derive(Debug, PartialEq)]
pub enum RawPart {
    Text(String),
    Table(StrMap<String>),
    Other,
}

/// The part that a written part stands for: a text stands for itself, a
/// table with the one field `file` for the file at that path, and nothing
/// else for a part.
pub open spec fn part_of(p: RawPart) -> Option<PartModel> {
    match p {
        RawPart::Text(s) => Some(PartModel::Text(s@)),
        RawPart::Table(m) => if m.keys() == seq!["file"@] {
            Some(PartModel::File(m.values()[0]@))
        } else {
            None
        },
        RawPart::Other => None,
    }
}

/// The parts from position `i` on, added to `done`; the first that stands
/// for no part decides the error, which names it.
pub open spec fn parts_of(
    entries: Seq<(String, RawPart)>,
    i: int,
    done: Seq<PartModel>,
) -> Result<Seq<PartModel>, DefinitionFailure>
    decreases entries.len() - i,
{
    if !(0 <= i < entries.len()) {
        Ok(done)
    } else {
        match part_of(entries[i].1) {
            Some(p) => parts_of(entries, i + 1, done.push(p)),
            None => Err(DefinitionFailure::MalformedPart(entries[i].0@)),
        }
    }
}

/// A list of parts fails only with a part that is malformed.
pub proof fn lemma_parts_failure(entries: Seq<(String, RawPart)>, i: int, done: Seq<PartModel>)
    ensures
        parts_of(entries, i, done) matches Err(e) ==> e is MalformedPart,
    decreases entries.len() - i,
{
    if 0 <= i < entries.len() {
        if let Some(p) = part_of(entries[i].1) {
            lemma_parts_failure(entries, i + 1, done.push(p));
        }
    }
}

/// The part that a written part stands for.
fn decode_part(p: RawPart) -> (r: Option<ReqMultipartValue>)
    ensures
        option_view(r) == part_of(p),
{
    match p {
        RawPart::Text(s) => Some(ReqMultipartValue::Text(s)),
        RawPart::Table(m) => {
            if m.len() == 1 && same_text(m.key_at(0).as_str(), "file") {
                assert(m.keys() =~= seq!["file"@]);
                Some(ReqMultipartValue::File(m.value_at(0).clone()))
            } else {
                None
            }
        },
        RawPart::Other => None,
    }
}

/// The parts of a multipart body, each under its name.
pub fn decode_parts(raw: StrMap<RawPart>) -> (r: Result<
    StrMap<ReqMultipartValue>,
    DefinitionError,
>)
    ensures
        match parts_of(raw.entries(), 0, Seq::empty()) {
            Ok(parts) => r matches Ok(m) && entries_of(&m) == (Entries {
                keys: raw.keys(),
                values: parts,
            }),
            Err(e) => r matches Err(x) && x@ == e,
        },
{
    let ghost all = raw.entries();
    let mut rest = raw.into_entries();
    let mut out: StrMap<ReqMultipartValue> = StrMap::new();
    let ghost mut i: int = 0;
    assert(entries_of(&out).values =~= Seq::<PartModel>::empty());
    while rest.len() > 0
        invariant
            0 <= i <= all.len(),
            all == raw.entries(),
            rest@ == all.skip(i),
            ascending(keys_of(all)),
            out.keys() == keys_of(all).take(i),
            parts_of(all, i, entries_of(&out).values) == parts_of(all, 0, Seq::empty()),
        decreases rest.len(),
    {
        let (name, part) = rest.remove(0);
        assert(all[i] == (name, part));
        let ghost values_before = entries_of(&out).values;
        match decode_part(part) {
            None => {
                return Err(DefinitionError::MalformedPart(name));
            },
            Some(p) => {
                assert forall|j: int| 0 <= j < out.keys().len() implies crate::text::precedes(
                    #[trigger] out.keys()[j],
                    name@,
                ) by {
                    assert(out.keys()[j] == keys_of(all)[j]);
                    assert(name@ == keys_of(all)[i]);
                }
                out.push_last(name, p);
                assert(entries_of(&out).values =~= values_before.push(p@));
                assert(keys_of(all).take(i + 1) =~= keys_of(all).take(i).push(name@));
            },
        }
        proof {
            assert(rest@ =~= all.skip(i + 1));
            i = i + 1;
        }
    }
    assert(keys_of(all).take(i) =~= keys_of(all));
    Ok(out)
}

/// The fields of the body of a task: each kind of body may be populated.
#[derive(Debug, PartialEq)]
pub struct RawBody {
    pub plain: Option<String>,
    pub json: Option<JsonValue>,
    pub form: Option<StrMap<String>>,
    pub multipart: Option<StrMap<RawPart>>,
}

/// One for a populated field, zero for another.
pub open spec fn one_if(populated: bool) -> nat {
    if populated {
        1
    } else {
        0
    }
}

impl RawBody {
    /// How many kinds of body are populated.
    pub open spec fn populated(&self) -> nat {
        one_if(self.plain is Some) + one_if(self.json is Some) + one_if(self.form is Some)
            + one_if(self.multipart is Some)
    }

    /// A body with no field populated.
    pub fn empty() -> (r: Self)
        ensures
            r.populated() == 0,
    {
        RawBody { plain: None, json: None, form: None, multipart: None }
    }
}

/// The body that the fields stand for: none where no field is populated, a
/// conflict where more than one is, else the body of the one kind.
pub open spec fn body_of(raw: RawBody) -> Result<BodyModel, DefinitionFailure> {
    if raw.populated() > 1 {
        Err(DefinitionFailure::BodyConflict)
    } else if let Some(s) = raw.plain {
        Ok(BodyModel::Plain(s@))
    } else if let Some(v) = raw.json {
        Ok(BodyModel::Json(v@))
    } else if let Some(m) = raw.form {
        Ok(BodyModel::Form(entries_of(&m)))
    } else if let Some(m) = raw.multipart {
        match parts_of(m.entries(), 0, Seq::empty()) {
            Ok(parts) => Ok(BodyModel::Multipart(Entries { keys: m.keys(), values: parts })),
            Err(e) => Err(e),
        }
    } else {
        Ok(BodyModel::Empty)
    }
}

impl ReqBody {
    /// The body of a task: at most one kind of body may be populated. Two
    /// kinds are a conflict, whatever they hold.
    pub fn from_raw(raw: RawBody) -> (r: Result<ReqBody, DefinitionError>)
        ensures
            match body_of(raw) {
                Ok(b) => r matches Ok(body) && body@ == b,
                Err(e) => r matches Err(x) && x@ == e,
            },
            raw.populated() > 1 <==> (r matches Err(x) && x@ == DefinitionFailure::BodyConflict),
    {
        proof {
            if raw.multipart is Some {
                lemma_parts_failure(raw.multipart->0.entries(), 0, Seq::empty());
            }
        }
        let RawBody { plain, json, form, multipart } = raw;
        let mut count: u8 = 0;
        if plain.is_some() {
            count += 1;
        }
        if json.is_some() {
            count += 1;
        }
        if form.is_some() {
            count += 1;
        }
        if multipart.is_some() {
            count += 1;
        }
        if count > 1 {
            return Err(DefinitionError::BodyConflict);
        }
        if let Some(s) = plain {
            Ok(ReqBody::Plain(s))
        } else if let Some(v) = json {
            Ok(ReqBody::Json(v))
        } else if let Some(m) = form {
            Ok(ReqBody::Form(m))
        } else if let Some(m) = multipart {
            match decode_parts(m) {
                Ok(parts) => Ok(ReqBody::Multipart(parts)),
                Err(e) => Err(e),
            }
        } else {
            Ok(ReqBody::Empty)
        }
    }
}

/// A task as it is written: every field of a method and of a body may be populated.
#[derive(Debug, PartialEq)]
pub struct RawTask {
    pub target: RawTarget,
    pub headers: StrMap<ReqParam>,
    pub queries: StrMap<ReqParam>,
    pub body: RawBody,
    pub description: String,
    pub auth: Option<ReqAuth>,
    pub config: Option<ReqConfig>,
}

/// The task that the written task stands for. The body is looked at first:
/// two kinds of body are a conflict also where the target is not well defined.
pub open spec fn task_of(raw: RawTask) -> Result<TaskModel, DefinitionFailure> {
    match body_of(raw.body) {
        Err(e) => Err(e),
        Ok(body) => match target_of(raw.target.populated()) {
            Err(e) => Err(e),
            Ok(target) => Ok(
                TaskModel {
                    target,
                    headers: entries_of(&raw.headers),
                    queries: entries_of(&raw.queries),
                    body,
                    description: raw.description@,
                    auth: option_view(raw.auth),
                    config: option_view(raw.config),
                },
            ),
        },
    }
}

impl ReqTask {
    /// The task that the written task stands for, or why it stands for
    /// none. No text is interpolated: a task with two kinds of body is
    /// refused whatever its texts name.
    pub fn from_raw(raw: RawTask) -> (r: Result<ReqTask, DefinitionError>)
        ensures
            match task_of(raw) {
                Ok(t) => r matches Ok(task) && task@ == t,
                Err(e) => r matches Err(x) && x@ == e,
            },
            raw.body.populated() > 1 ==> (r matches Err(x) && x@
                == DefinitionFailure::BodyConflict),
    {
        let RawTask { target, headers, queries, body, description, auth, config } = raw;
        let body = match ReqBody::from_raw(body) {
            Ok(b) => b,
            Err(e) => {
                return Err(e);
            },
        };
        let method = match ReqMethod::from_raw(target) {
            Ok(m) => m,
            Err(e) => {
                return Err(e);
            },
        };
        Ok(ReqTask { method, headers, queries, body, description, auth, config })
    }
}

/// A document as it is written.
#[derive(Debug, PartialEq)]
pub struct RawReq {
    pub tasks: StrMap<RawTask>,
    pub variables: StrMap<String>,
    pub config: Option<ReqConfig>,
}

/// Why a document is not well defined: the task, by its name, and what is
/// wrong with it.
#[derive(Debug, PartialEq, Eq)]
pub struct TaskDefinitionError {
    pub task: String,
    pub error: DefinitionError,
}

impl TaskDefinitionError {
    /// The error as a sentence that names the task.
    pub fn message(&self) -> (m: String)
        ensures
            m@ == "task \""@ + self.task@ + "\": "@ + self.error.message_text(),
    {
        let mut m = String::from_str("task \"");
        m.append(self.task.as_str());
        m.append("\": ");
        m.append(self.error.message().as_str());
        m
    }
}

impl DefinitionError {
    /// The sentence of the error.
    pub open spec fn message_text(&self) -> Seq<char> {
        match self@ {
            DefinitionFailure::MissingMethod => "missing definition of method and url"@,
            DefinitionFailure::DuplicateMethod => "duplicate definition of method and url"@,
            DefinitionFailure::BodyConflict => "more than one kind of body is defined"@,
            DefinitionFailure::MalformedPart(n) => "malformed multipart entry \""@ + n + "\""@,
        }
    }
}

/// The tasks from position `i` on, added to `done`; the first that is not
/// well defined decides the error, which names it.
pub open spec fn tasks_of(entries: Seq<(String, RawTask)>, i: int, done: Seq<TaskModel>) -> Result<
    Seq<TaskModel>,
    (Seq<char>, DefinitionFailure),
>
    decreases entries.len() - i,
{
    if !(0 <= i < entries.len()) {
        Ok(done)
    } else {
        match task_of(entries[i].1) {
            Ok(t) => tasks_of(entries, i + 1, done.push(t)),
            Err(e) => Err((entries[i].0@, e)),
        }
    }
}

impl Req {
    /// The document that the written document stands for: each task
    /// constructed, in the order of the names; the variables and the
    /// configuration as they are written.
    pub fn from_raw(raw: RawReq) -> (r: Result<Req, TaskDefinitionError>)
        ensures
            match tasks_of(raw.tasks.entries(), 0, Seq::empty()) {
                Ok(tasks) => r matches Ok(req) && entries_of(&req.tasks) == (Entries {
                    keys: raw.tasks.keys(),
                    values: tasks,
                }) && req.variables == raw.variables && req.config == raw.config,
                Err((name, e)) => r matches Err(x) && x.task@ == name && x.error@ == e,
            },
    {
        let RawReq { tasks, variables, config } = raw;
        let ghost all = tasks.entries();
        let mut rest = tasks.into_entries();
        let mut out: StrMap<ReqTask> = StrMap::new();
        let ghost mut i: int = 0;
        assert(entries_of(&out).values =~= Seq::<TaskModel>::empty());
        while rest.len() > 0
            invariant
                0 <= i <= all.len(),
                all == raw.tasks.entries(),
                rest@ == all.skip(i),
                ascending(keys_of(all)),
                out.keys() == keys_of(all).take(i),
                tasks_of(all, i, entries_of(&out).values) == tasks_of(all, 0, Seq::empty()),
            decreases rest.len(),
        {
            let (name, task) = rest.remove(0);
            assert(all[i] == (name, task));
            let ghost values_before = entries_of(&out).values;
            match ReqTask::from_raw(task) {
                Err(e) => {
                    return Err(TaskDefinitionError { task: name, error: e });
                },
                Ok(t) => {
                    assert forall|j: int| 0 <= j < out.keys().len() implies crate::text::precedes(
                        #[trigger] out.keys()[j],
                        name@,
                    ) by {
                        assert(out.keys()[j] == keys_of(all)[j]);
                        assert(name@ == keys_of(all)[i]);
                    }
                    out.push_last(name, t);
                    assert(entries_of(&out).values =~= values_before.push(t@));
                    assert(keys_of(all).take(i + 1) =~= keys_of(all).take(i).push(name@));
                },
            }
            proof {
                assert(rest@ =~= all.skip(i + 1));
                i = i + 1;
            }
        }
        assert(keys_of(all).take(i) =~= keys_of(all));
        Ok(Req { tasks: out, variables, config })
    }
}

} // verus!
