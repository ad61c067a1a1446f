//! Builds the boolean filter expression a search hands to the storage
//! engine. Every string value stands between single quotes with its own
//! quotes doubled, so no value can break out of the expression.

use vstd::prelude::*;
use vstd::string::*;

use crate::text::{escape_quotes, escaped};

verus! {

/// `v` escaped and wrapped in single quotes.
pub open spec fn quoted(v: Seq<char>) -> Seq<char> {
    seq!['\''] + escaped(v) + seq!['\'']
}

/// The quoted file names joined with commas.
pub open spec fn file_list_expr(files: Seq<Seq<char>>) -> Seq<char>
    decreases files.len(),
{
    if files.len() == 0 {
        Seq::empty()
    } else if files.len() == 1 {
        quoted(files[0])
    } else {
        file_list_expr(files.drop_last()) + seq![','] + quoted(files.last())
    }
}

/// The whole filter: the workspace equality, and, where context files are
/// given, the file-name membership test.
pub open spec fn filter_expr(workspace: Seq<char>, files: Seq<Seq<char>>) -> Seq<char> {
    let base = "workspace_name == "@ + quoted(workspace);
    if files.len() == 0 {
        base
    } else {
        base + " AND file_name IN ("@ + file_list_expr(files) + seq![')']
    }
}

/// Appends `v` escaped and wrapped in single quotes to `out`.
fn append_quoted(out: &mut String, v: &String)
    ensures
        final(out)@ == old(out)@ + quoted(v@),
{
    let escaped_value = escape_quotes(v.as_str());
    out.append("'");
    out.append(escaped_value.as_str());
    out.append("'");
    proof {
        reveal_strlit("'");
        assert("'"@ =~= seq!['\'']);
        assert(old(out)@ + "'"@ + escaped(v@) + "'"@ =~= old(out)@ + quoted(v@));
    }
}

/// Builds the filter expression of a search: rows must belong to the given
/// workspace and, where `context_files` is non-empty, to one of the listed
/// files. Every embedded value is quote-escaped.
pub fn build_filter(workspace_name: &String, context_files: &Vec<String>) -> (r: String)
    ensures
        r@ == filter_expr(workspace_name@, context_files.deep_view()),
{
    let ghost files = context_files.deep_view();
    let mut out = String::from_str("workspace_name == ");
    append_quoted(&mut out, workspace_name);
    if context_files.len() == 0 {
        return out;
    }
    out.append(" AND file_name IN (");
    let mut j: usize = 0;
    proof {
        vstd::std_specs::vec::axiom_spec_len(context_files);
        assert(out@ + file_list_expr(files.subrange(0, 0)) =~= out@);
    }
    let ghost head = out@;
    while j < context_files.len()
        invariant
            j <= files.len(),
            files.len() <= usize::MAX,
            files.len() == context_files.deep_view().len(),
            files == context_files.deep_view(),
            files.len() > 0,
            out@ == head + file_list_expr(files.subrange(0, j as int)),
        decreases files.len() - j,
    {
        if j > 0 {
            out.append(",");
            proof {
                reveal_strlit(",");
                assert(","@ =~= seq![',']);
            }
        }
        append_quoted(&mut out, &context_files[j]);
        proof {
            assert(context_files@[j as int]@ == files[j as int]);
            let prefix = files.subrange(0, j as int);
            let extended = files.subrange(0, j + 1);
            assert(extended.drop_last() =~= prefix);
            assert(extended.last() == files[j as int]);
            if j == 0 {
                assert(file_list_expr(extended) == quoted(files[0]));
                assert(out@ =~= head + file_list_expr(extended));
            } else {
                assert(file_list_expr(extended) == file_list_expr(prefix) + seq![','] + quoted(
                    files[j as int],
                ));
                assert(out@ =~= head + file_list_expr(extended));
            }
        }
        j = j + 1;
    }
    out.append(")");
    proof {
        reveal_strlit(")");
        assert(")"@ =~= seq![')']);
        assert(files.subrange(0, files.len() as int) =~= files);
        assert(out@ =~= filter_expr(workspace_name@, files));
    }
    out
}

} // verus!
