use crate::data::{
    entries_of, interpolate_btree_map, option_view, outcome_of, ReqAuth, ReqBody, ReqConfig,
    ReqMethod, ReqParam,
};
use crate::interpolation::{
    create_interpolation_context, resolve_all, text_map, Failure, InterpContext, InterpError,
};
use crate::model::{
    interp_config_with, interp_option, interp_task, ConfigModel, Entries, TaskModel,
};
use crate::strmap::StrMap;
use vstd::prelude::*;
use vstd::string::StringExecFns;

verus! {

/// One request, as it is declared: where it goes, what it carries, and how.
#[derive(Debug, PartialEq)]
pub struct ReqTask {
    pub method: ReqMethod,
    pub headers: StrMap<ReqParam>,
    pub queries: StrMap<ReqParam>,
    pub body: ReqBody,
    pub description: String,
    pub auth: Option<ReqAuth>,
    pub config: Option<ReqConfig>,
}

impl View for ReqTask {
    type V = TaskModel;

    open spec fn view(&self) -> TaskModel {
        TaskModel {
            target: self.method@,
            headers: entries_of(&self.headers),
            queries: entries_of(&self.queries),
            body: self.body@,
            description: self.description@,
            auth: option_view(self.auth),
            config: option_view(self.config),
        }
    }
}

impl ReqTask {
    /// The task with every text that its author writes interpolated. The
    /// context and the task itself stay as they are.
    pub fn interpolate(&self, ctxt: &InterpContext) -> (r: Result<ReqTask, InterpError>)
        ensures
            outcome_of(r) == interp_task(self@, ctxt@),
    {
        let method = match self.method.interpolatte(ctxt) {
            Ok(v) => v,
            Err(e) => {
                return Err(e);
            },
        };
        let headers = match interpolate_btree_map(&self.headers, ctxt) {
            Ok(v) => v,
            Err(e) => {
                return Err(e);
            },
        };
        let queries = match interpolate_btree_map(&self.queries, ctxt) {
            Ok(v) => v,
            Err(e) => {
                return Err(e);
            },
        };
        let body = match self.body.interpolate(ctxt) {
            Ok(v) => v,
            Err(e) => {
                return Err(e);
            },
        };
        let auth = match &self.auth {
            None => None,
            Some(a) => match a.interpolate(ctxt) {
                Ok(v) => Some(v),
                Err(e) => {
                    return Err(e);
                },
            },
        };
        let config = match &self.config {
            None => None,
            Some(c) => match c.interpolate(ctxt) {
                Ok(v) => Some(v),
                Err(e) => {
                    return Err(e);
                },
            },
        };
        Ok(
            ReqTask {
                method,
                headers,
                queries,
                body,
                description: self.description.clone(),
                auth,
                config,
            },
        )
    }
}

/// A document: tasks by name, the variables that their texts may name, and
/// how requests are carried where a task does not say it.
#[derive(Debug, PartialEq)]
pub struct Req {
    pub tasks: StrMap<ReqTask>,
    pub variables: StrMap<String>,
    pub config: Option<ReqConfig>,
}

/// The task as `get_task` hands it out: interpolated with the context, and
/// carried as the document says where the task itself does not say how. What
/// the document says is interpolated with the context too, behind the task:
/// a resolved task holds no text that has not been interpolated.
pub open spec fn resolved_task(
    task: TaskModel,
    context: Map<Seq<char>, Seq<char>>,
    fallback: Option<ConfigModel>,
) -> Result<TaskModel, Failure> {
    match interp_task(task, context) {
        Err(e) => Err(e),
        Ok(t) => if t.config is None {
            match interp_option(fallback, interp_config_with(context)) {
                Err(e) => Err(e),
                Ok(config) => Ok(TaskModel { config, ..t }),
            }
        } else {
            Ok(t)
        },
    }
}

/// The line that stands for a task in a list: its name, a tab, and its description.
pub open spec fn task_line(name: Seq<char>, description: Seq<char>) -> Seq<char> {
    name + "\t"@ + if description.len() > 0 {
        description
    } else {
        "<NO DESCRIPTION>"@
    }
}

/// The lines of the first `n` tasks, a line feed between two lines.
pub open spec fn listing(names: Seq<Seq<char>>, tasks: Seq<ReqTask>, n: int) -> Seq<char>
    decreases n,
{
    if n <= 0 {
        Seq::empty()
    } else if n == 1 {
        task_line(names[0], tasks[0].description@)
    } else {
        listing(names, tasks, n - 1) + "\n"@ + task_line(names[n - 1], tasks[n - 1].description@)
    }
}

/// The entries after the pairs from position `i` on have been put into them, in order.
pub open spec fn put_all(
    entries: Entries<Seq<char>>,
    pairs: Seq<(String, String)>,
    i: int,
) -> Entries<Seq<char>>
    decreases pairs.len() - i,
{
    if !(0 <= i < pairs.len()) {
        entries
    } else {
        put_all(entries.put(pairs[i].0@, pairs[i].1@), pairs, i + 1)
    }
}

impl Req {
    /// The path of the file of variables that the document asks for.
    pub fn env_file(&self) -> (r: Option<&str>)
        ensures
            match self.config {
                None => r is None,
                Some(c) => match c.env_file@ {
                    crate::model::EnvFileModel::Bool(true) => r matches Some(p) && p@ == ".env"@,
                    crate::model::EnvFileModel::Bool(false) => r is None,
                    crate::model::EnvFileModel::Path(s) => r matches Some(p) && p@ == s,
                },
            },
    {
        match &self.config {
            None => None,
            Some(c) => c.env_file.path(),
        }
    }

    /// Resolves the variables, then the task of that name. The variables are
    /// resolved first: an error in them comes also where no task has the
    /// name. A task that does not say how it is carried is carried as the
    /// document says, with the texts of the document's configuration
    /// interpolated as those of the task are.
    pub fn get_task(self, name: &str) -> (r: Result<Option<ReqTask>, InterpError>)
        ensures
            match resolve_all(text_map(self.variables@), self.variables.keys(), 0) {
                Err(e) => r matches Err(x) && x@ == e,
                Ok(context) => if !self.tasks@.contains_key(name@) {
                    r matches Ok(None)
                } else {
                    match resolved_task(self.tasks@[name@]@, context, option_view(self.config)) {
                        Err(e) => r matches Err(x) && x@ == e,
                        Ok(t) => r matches Ok(Some(task)) && task@ == t,
                    }
                },
            },
    {
        let Req { tasks, variables, config } = self;
        let ctxt = match create_interpolation_context(variables) {
            Ok(c) => c,
            Err(e) => {
                return Err(e);
            },
        };
        match tasks.get(name) {
            None => Ok(None),
            Some(task) => {
                let mut task = match task.interpolate(&ctxt) {
                    Ok(t) => t,
                    Err(e) => {
                        return Err(e);
                    },
                };
                if task.config.is_none() {
                    task.config = match &config {
                        Some(c) => match c.interpolate(&ctxt) {
                            Ok(c) => Some(c),
                            Err(e) => {
                                return Err(e);
                            },
                        },
                        None => None,
                    };
                }
                Ok(Some(task))
            },
        }
    }

    /// The document with each pair of `vals` put among its variables, in
    /// order: a later value for a name replaces an earlier one.
    pub fn with_values(self, vals: Vec<(String, String)>) -> (r: Self)
        ensures
            entries_of(&r.variables) == put_all(entries_of(&self.variables), vals@, 0),
            r.tasks == self.tasks,
            r.config == self.config,
    {
        let Req { tasks, variables, config } = self;
        let mut variables = variables;
        let mut i: usize = 0;
        while i < vals.len()
            invariant
                i <= vals.len(),
                put_all(entries_of(&variables), vals@, i as int) == put_all(
                    entries_of(&self.variables),
                    vals@,
                    0,
                ),
            decreases vals.len() - i,
        {
            let ghost keys_before = variables.keys();
            let ghost values_before = variables.values();
            let k = vals[i].0.clone();
            let v = vals[i].1.clone();
            proof {
                crate::model::lemma_put_mapped(keys_before, values_before, k@, v, |x: String| x@);
            }
            variables.insert(k, v);
            i += 1;
        }
        Req { tasks, variables, config }
    }

    /// The tasks, each with its name and its description, in the order of
    /// their names. No text is interpolated.
    pub fn list_tasks(&self) -> (r: Vec<(String, String)>)
        ensures
            r@.len() == self.tasks.keys().len(),
            forall|i: int|
                0 <= i < r@.len() ==> (#[trigger] r@[i]).0@ == self.tasks.keys()[i] && r@[i].1@
                    == self.tasks.values()[i].description@,
    {
        let n = self.tasks.len();
        let mut out: Vec<(String, String)> = Vec::new();
        let mut i: usize = 0;
        while i < n
            invariant
                i <= n,
                n == self.tasks.keys().len(),
                out@.len() == i,
                forall|j: int|
                    0 <= j < i ==> (#[trigger] out@[j]).0@ == self.tasks.keys()[j] && out@[j].1@
                        == self.tasks.values()[j].description@,
            decreases n - i,
        {
            out.push((self.tasks.key_at(i).clone(), self.tasks.value_at(i).description.clone()));
            i += 1;
        }
        out
    }

    /// The tasks, one line each, in the order of their names.
    pub fn display_tasks(&self) -> (r: String)
        ensures
            r@ == listing(self.tasks.keys(), self.tasks.values(), self.tasks.keys().len() as int),
    {
        let n = self.tasks.len();
        let mut out = String::new();
        let mut i: usize = 0;
        while i < n
            invariant
                i <= n,
                n == self.tasks.keys().len(),
                out@ == listing(self.tasks.keys(), self.tasks.values(), i as int),
            decreases n - i,
        {
            if i > 0 {
                out.append("\n");
            }
            let task = self.tasks.value_at(i);
            out.append(self.tasks.key_at(i).as_str());
            out.append("\t");
            if !task.description.as_str().is_empty() {
                out.append(task.description.as_str());
            } else {
                out.append("<NO DESCRIPTION>");
            }
            proof {
                let line = task_line(self.tasks.keys()[i as int], task.description@);
                if i == 0 {
                    assert(out@ =~= line);
                } else {
                    assert(out@ =~= listing(self.tasks.keys(), self.tasks.values(), i as int)
                        + "\n"@ + line);
                }
            }
            i += 1;
        }
        out
    }
}

} // verus!
