//! The argument specifications of segment functions, and their printed form.

use vstd::prelude::*;
use crate::text::{append_chars, append_str, chars_of, join_seqs, join_strings, string_of, string_views};

verus! {

/// What the lint reads of a function's arguments: their names, the names of
/// the catch-all parameters, the printed default values of the last
/// arguments, and the keyword-only arguments.
#[derive(Debug, Clone)]
pub struct FullArgSpec {
    pub args: Vec<String>,
    pub varargs: Option<String>,
    pub varkw: Option<String>,
    pub defaults: Vec<String>,
    pub kwonlyargs: Vec<String>,
}

/// The argument specification of the function named `obj_name`: no
/// function is registered here, so every list is empty.
pub fn getconfigargspec(obj_name: &str) -> (r: FullArgSpec)
    ensures
        r.args@.len() == 0,
        r.varargs is None,
        r.varkw is None,
        r.defaults@.len() == 0,
        r.kwonlyargs@.len() == 0,
{
    FullArgSpec { args: Vec::new(), varargs: None, varkw: None, defaults: Vec::new(), kwonlyargs: Vec::new() }
}

/// The index of the first argument that has a default.
pub open spec fn first_default(n_args: int, n_defaults: int) -> int {
    if n_args >= n_defaults {
        n_args - n_defaults
    } else {
        0
    }
}

/// The printed form of argument `i`: its name, then `=` and its default
/// when it has one.
pub open spec fn arg_text(args: Seq<String>, defaults: Seq<String>, i: int) -> Seq<char> {
    let fd = first_default(args.len() as int, defaults.len() as int);
    if defaults.len() > 0 && i >= fd {
        args[i]@ + "="@ + defaults[i - fd]@
    } else {
        args[i]@
    }
}

/// The printed forms of all the arguments.
pub open spec fn arg_texts(args: Seq<String>, defaults: Seq<String>) -> Seq<Seq<char>> {
    Seq::new(args.len(), |i: int| arg_text(args, defaults, i))
}

/// The printed argument list: `(a, b=1, c=2)`, where the last arguments
/// take the defaults in order.
pub fn formatconfigargspec(args: &[String], defaults: &[String]) -> (r: String)
    ensures
        r@ == "("@ + join_seqs(arg_texts(args@, defaults@), ", "@) + ")"@,
{
    proof {
        reveal_strlit("=");
        reveal_strlit("(");
        reveal_strlit(")");
        reveal_strlit(", ");
    }
    let firstdefault: usize = if args.len() >= defaults.len() { args.len() - defaults.len() } else { 0 };
    let mut specs: Vec<String> = Vec::new();
    let mut i: usize = 0;
    while i < args.len()
        invariant
            i <= args.len(),
            firstdefault == first_default(args@.len() as int, defaults@.len() as int),
            specs@.len() == i,
            forall|j: int| 0 <= j < i ==> #[trigger] specs@[j]@ == arg_text(args@, defaults@, j),
        decreases args.len() - i,
    {
        let mut spec = chars_of(args[i].as_str());
        if defaults.len() > 0 && i >= firstdefault {
            append_str(&mut spec, "=");
            let d = chars_of(defaults[i - firstdefault].as_str());
            append_chars(&mut spec, &d);
        }
        specs.push(string_of(&spec));
        i = i + 1;
    }
    assert(string_views(specs@) =~= arg_texts(args@, defaults@));
    let joined = join_strings(&specs, ", ");
    let mut out = chars_of("(");
    let j = chars_of(joined.as_str());
    append_chars(&mut out, &j);
    append_str(&mut out, ")");
    string_of(&out)
}

} // verus!
