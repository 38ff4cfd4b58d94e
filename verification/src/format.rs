//! `FORMAT(template, args...)`: filling a parsed template with arguments.
use vstd::prelude::*;

use crate::builtins::{find_string_key, first_key, has_key};
use crate::display::{show_into, shown};
use crate::text::{concat2, count_text, decimal};
use crate::value::{is_type_error, type_error, type_label, type_label_spec, BuiltinError, ErrorCode, Value};

verus! {

/// A piece of a parsed `FORMAT` template.
#[derive(Debug, PartialEq)]
pub enum FormatSegment {
    /// Text copied as it is.
    Literal(String),
    /// `{N}`: the N-th argument after the template.
    Positional(usize),
    /// `{name}`: the entry `name` of the first dict among the arguments.
    Named(String),
}

/// The position of the first dict among `args`, if any.
pub open spec fn first_dict(args: Seq<Value>) -> Option<int>
    decreases args.len(),
{
    if args.len() == 0 {
        None
    } else if args[0] is Dict {
        Some(0)
    } else {
        match first_dict(args.drop_first()) {
            Some(i) => Some(i + 1),
            None => None,
        }
    }
}

/// The text a segment stands for: a literal as it is, an argument as `STR`
/// writes it (its doubles as `texts` gives them), and a placeholder whose
/// argument or entry is missing as written: `{N}` or `{name}`.
pub open spec fn segment_text(seg: FormatSegment, args: Seq<Value>, texts: Seq<(u64, String)>) -> Seq<char> {
    match seg {
        FormatSegment::Literal(s) => s@,
        FormatSegment::Positional(n) => if n < args.len() {
            shown(args[n as int], texts)
        } else {
            "{"@ + decimal(n as int) + "}"@
        },
        FormatSegment::Named(name) => match first_dict(args) {
            Some(i) => {
                let d = args[i]->Dict_0@;
                if has_key(d, name@) {
                    let k = choose|k: int| first_key(d, name@, k);
                    shown(d[k].1, texts)
                } else {
                    "{"@ + name@ + "}"@
                }
            },
            None => "{"@ + name@ + "}"@,
        },
    }
}

/// The texts of `segs`, one after the other.
pub open spec fn rendered(segs: Seq<FormatSegment>, args: Seq<Value>, texts: Seq<(u64, String)>) -> Seq<char>
    decreases segs.len(),
{
    if segs.len() == 0 {
        Seq::empty()
    } else {
        rendered(segs.drop_last(), args, texts) + segment_text(segs.last(), args, texts)
    }
}

fn find_dict(args: &Vec<Value>) -> (r: Option<usize>)
    ensures
        match r {
            Some(i) => first_dict(args@) == Some(i as int) && i < args@.len(),
            None => first_dict(args@) is None,
        },
{
    let mut i: usize = 0;
    assert(args@.skip(0) =~= args@);
    while i < args.len()
        invariant
            i <= args@.len(),
            forall|k: int| 0 <= k < i ==> !(#[trigger] args@[k] is Dict),
        decreases args@.len() - i,
    {
        if let Value::Dict(_) = &args[i] {
            proof {
                lemma_first_dict(args@, i as int);
            }
            return Some(i);
        }
        i = i + 1;
    }
    proof {
        lemma_no_dict(args@);
    }
    None
}

proof fn lemma_first_dict(args: Seq<Value>, i: int)
    requires
        0 <= i < args.len(),
        args[i] is Dict,
        forall|k: int| 0 <= k < i ==> !(#[trigger] args[k] is Dict),
    ensures
        first_dict(args) == Some(i),
    decreases i,
{
    if i > 0 {
        assert forall|k: int| 0 <= k < i - 1 implies !(#[trigger] args.drop_first()[k] is Dict) by {
            assert(args.drop_first()[k] == args[k + 1]);
        }
        lemma_first_dict(args.drop_first(), i - 1);
    }
}

proof fn lemma_first_dict_is_dict(args: Seq<Value>)
    ensures
        first_dict(args) matches Some(i) ==> 0 <= i < args.len() && args[i] is Dict,
    decreases args.len(),
{
    if args.len() > 0 {
        lemma_first_dict_is_dict(args.drop_first());
        if !(args[0] is Dict) {
            if let Some(i) = first_dict(args.drop_first()) {
                assert(args.drop_first()[i] == args[i + 1]);
            }
        }
    }
}

proof fn lemma_no_dict(args: Seq<Value>)
    requires
        forall|k: int| 0 <= k < args.len() ==> !(#[trigger] args[k] is Dict),
    ensures
        first_dict(args) is None,
    decreases args.len(),
{
    if args.len() > 0 {
        assert forall|k: int| 0 <= k < args.drop_first().len() implies !(#[trigger] args.drop_first()[k] is Dict) by {
            assert(args.drop_first()[k] == args[k + 1]);
        }
        lemma_no_dict(args.drop_first());
    }
}

/// The template `segs` filled with `args`, the arguments that follow the
/// template.
pub fn render_format(segs: &Vec<FormatSegment>, args: &Vec<Value>, texts: &Vec<(u64, String)>) -> (s: String)
    ensures
        s@ == rendered(segs@, args@, texts@),
{
    let named = find_dict(args);
    proof {
        lemma_first_dict_is_dict(args@);
    }
    let mut out = String::new();
    let mut i: usize = 0;
    while i < segs.len()
        invariant
            i <= segs@.len(),
            out@ == rendered(segs@.take(i as int), args@, texts@),
            match named {
                Some(j) => first_dict(args@) == Some(j as int) && j < args@.len() && args@[j as int] is Dict,
                None => first_dict(args@) is None,
            },
        decreases segs@.len() - i,
    {
        let ghost before = out@;
        match &segs[i] {
            FormatSegment::Literal(s) => {
                out.append(s.as_str());
            },
            FormatSegment::Positional(n) => {
                if *n < args.len() {
                    show_into(&args[*n], texts, &mut out);
                } else {
                    out.append("{");
                    out.append(count_text(*n).as_str());
                    out.append("}");
                }
            },
            FormatSegment::Named(name) => {
                let mut hit = false;
                if let Some(j) = named {
                    if let Value::Dict(entries) = &args[j] {
                        if let Some(k) = find_string_key(entries, name.as_str()) {
                            proof {
                                let c = choose|c: int| first_key(entries@, name@, c);
                                crate::builtins::lemma_first_key_unique(entries@, name@, c, k as int);
                            }
                            show_into(&entries[k].1, texts, &mut out);
                            hit = true;
                        }
                    }
                }
                if !hit {
                    out.append("{");
                    out.append(name.as_str());
                    out.append("}");
                }
            },
        }
        proof {
            let t = segs@.take(i + 1);
            assert(t.drop_last() =~= segs@.take(i as int));
            assert(t.last() == segs@[i as int]);
            assert(out@ =~= before + segment_text(segs@[i as int], args@, texts@));
        }
        i = i + 1;
    }
    assert(segs@.take(segs@.len() as int) =~= segs@);
    out
}

/// What `format_template(args)` gives: the template text, or the error for
/// a call without arguments (`E0022`) or with a template that is not a
/// STRING (`E0030`).
pub open spec fn template_outcome(args: Seq<Value>, r: Result<Seq<char>, BuiltinError>) -> bool {
    if args.len() == 0 {
        r matches Err(e) && e.code == ErrorCode::E0022 && e.message@
            == "FORMAT: function expects at least 1 argument (template), got 0"@ && e.note is None && e.cause is None
    } else {
        match args[0] {
            Value::String(t) => r == Ok::<Seq<char>, BuiltinError>(t@),
            other => r matches Err(e) && is_type_error(e, "FORMAT"@, "template must be STRING, got "@ + type_label_spec(&other)@),
        }
    }
}

/// The template of a `FORMAT` call, which the caller parses into segments.
pub fn format_template(args: &Vec<Value>) -> (r: Result<&str, BuiltinError>)
    ensures
        template_outcome(args@, match r {
            Ok(t) => Ok(t@),
            Err(e) => Err(e),
        }),
{
    if args.len() == 0 {
        return Err(
            BuiltinError {
                code: ErrorCode::E0022,
                message: String::from_str("FORMAT: function expects at least 1 argument (template), got 0"),
                note: None,
                cause: None,
            },
        );
    }
    match &args[0] {
        Value::String(t) => Ok(t.as_str()),
        other => Err(type_error("FORMAT", concat2("template must be STRING, got ", type_label(other)).as_str())),
    }
}

/// `FORMAT(template, args...)` with the template parsed into `segs`: the
/// segments filled with the arguments after the template.
pub fn render_after_template(segs: &Vec<FormatSegment>, args: Vec<Value>, texts: &Vec<(u64, String)>) -> (s: String)
    requires
        args@.len() >= 1,
    ensures
        s@ == rendered(segs@, args@.drop_first(), texts@),
{
    let mut rest = args;
    let ghost all = rest@;
    rest.remove(0);
    assert(rest@ =~= all.drop_first());
    render_format(segs, &rest, texts)
}

} // verus!
