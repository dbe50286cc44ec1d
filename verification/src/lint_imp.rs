//! Resolving the functions that a configuration names by module and name.

use vstd::prelude::*;
use crate::json_value::JsonValue;
use crate::lint_context::{entry_keys, Context};
use crate::markedjson::marks::Mark;
use crate::text::{append_chars, append_str, chars_of, copy_strings, join_seqs, str_eq, string_of};

verus! {

/// A list of paths put in front of the search path while a function is
/// imported, and the search path as it was before.
#[derive(Debug, Clone)]
pub struct WithPath {
    pub import_paths: Vec<String>,
    pub oldpath: Vec<String>,
}

impl WithPath {
    /// Paths to put in front of the search path.
    pub fn new(import_paths: Vec<String>) -> (r: Self)
        ensures
            r.import_paths@ == import_paths@,
            r.oldpath@ == Seq::<String>::empty(),
    {
        WithPath { import_paths, oldpath: Vec::new() }
    }

    /// Keeps `current_path` and gives the search path to use: the import
    /// paths, then `current_path`.
    pub fn enter(&mut self, current_path: &[String]) -> (r: Vec<String>)
        ensures
            final(self).oldpath@ == current_path@,
            final(self).import_paths@ == old(self).import_paths@,
            r@ == old(self).import_paths@ + current_path@,
    {
        self.oldpath = copy_strings(current_path);
        let mut new_path = copy_strings(self.import_paths.as_slice());
        let rest = copy_strings(current_path);
        let mut i: usize = 0;
        let ghost start = new_path@;
        while i < rest.len()
            invariant
                i <= rest.len(),
                new_path@ == start + rest@.take(i as int),
            decreases rest.len() - i,
        {
            new_path.push(rest[i].clone());
            i = i + 1;
            assert(new_path@ =~= start + rest@.take(i as int));
        }
        assert(rest@.take(rest.len() as int) =~= rest@);
        new_path
    }

    /// The search path to go back to.
    pub fn exit(&self) -> (r: Vec<String>)
        ensures
            r@ == self.oldpath@,
    {
        copy_strings(self.oldpath.as_slice())
    }
}

/// A name as written in the configuration, with where it was written.
#[derive(Debug, Clone)]
pub struct MarkedName {
    pub value: String,
    pub mark: Option<Mark>,
}

/// The outcome of resolving a function: its qualified name, or nothing.
#[derive(Debug, Clone)]
pub enum ImportedFunction {
    Qualified(String),
    NotFound,
}

/// What resolving a function reports.
#[derive(Debug, Clone)]
pub enum ImportError {
    Deprecation {
        context_key: String,
        module: String,
        name: String,
        name_mark: Option<Mark>,
        module_mark: Option<Mark>,
    },
    ModuleImportFailed {
        context_key: String,
        module: String,
        name_mark: Option<Mark>,
        module_mark: Option<Mark>,
    },
    FunctionNotFound {
        context_key: String,
        function_type: String,
        module: String,
        name: String,
        name_mark: Option<Mark>,
    },
    NotCallable {
        context_key: String,
        module: String,
        name: String,
        name_mark: Option<Mark>,
        module_mark: Option<Mark>,
    },
}

/// Whether `module`.`name` is a segment that is deprecated.
pub open spec fn is_deprecated_segment(module: Seq<char>, name: Seq<char>) -> bool {
    module == "powerline.segments.i3wm"@ && name == "workspaces"@
}

/// Resolves function `name` of `module`, in the place `context`: gives its
/// qualified name `module.name`, and the warning, if any, to report about
/// it (a deprecated segment). The name is not looked up, so what `data`
/// holds (its `import_paths` among it) does not change the result.
pub fn import_function(function_type: &str, name: &MarkedName, data: &Vec<(String, JsonValue)>, context: &Context, module: &MarkedName) -> (r: (ImportedFunction, Vec<ImportError>))
    ensures
        r.0 matches ImportedFunction::Qualified(q) && q@ == module.value@ + "."@ + name.value@,
        is_deprecated_segment(module.value@, name.value@) ==> r.1@.len() == 1 && (r.1@[0] matches ImportError::Deprecation { context_key, module: m, name: n, name_mark, module_mark } && context_key@ == join_seqs(entry_keys(context.0@), "/"@) && m@ == module.value@ && n@ == name.value@ && name_mark == name.mark && module_mark == module.mark),
        !is_deprecated_segment(module.value@, name.value@) ==> r.1@.len() == 0,
{
    proof {
        reveal_strlit("powerline.segments.i3wm");
        reveal_strlit("workspaces");
        reveal_strlit(".");
    }
    let mut warnings: Vec<ImportError> = Vec::new();
    if str_eq(module.value.as_str(), "powerline.segments.i3wm") && str_eq(name.value.as_str(), "workspaces") {
        warnings.push(ImportError::Deprecation {
            context_key: context.key(),
            module: module.value.clone(),
            name: name.value.clone(),
            name_mark: name.mark,
            module_mark: module.mark,
        });
    }
    let mut q = chars_of(module.value.as_str());
    append_str(&mut q, ".");
    let n = chars_of(name.value.as_str());
    append_chars(&mut q, &n);
    (ImportedFunction::Qualified(string_of(&q)), warnings)
}

/// Resolves segment function `name` of `module`.
pub fn import_segment(name: &MarkedName, data: &Vec<(String, JsonValue)>, context: &Context, module: &MarkedName) -> (r: (ImportedFunction, Vec<ImportError>))
    ensures
        r.0 matches ImportedFunction::Qualified(q) && q@ == module.value@ + "."@ + name.value@,
        is_deprecated_segment(module.value@, name.value@) ==> r.1@.len() == 1 && r.1@[0] is Deprecation,
        !is_deprecated_segment(module.value@, name.value@) ==> r.1@.len() == 0,
{
    import_function("segment", name, data, context, module)
}

} // verus!
