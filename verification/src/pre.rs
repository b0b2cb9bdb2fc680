//! The pre-processor: the full citation pipeline from annotated text and a
//! bibliographic library to rendered text.

use crate::crossref::build_crossref_map;
use crate::csljson::{build_csl_lib, csl_lib_spec, csl_models, CSLSource, CslModel};
use crate::lexer::{lexer, lex_spec, toks, Token, TokenModel, TokenType};
use crate::options::{smallcaps, smallcaps_spec};
use crate::parser::{branches_model, opens_from, parse_spec, parser, Branch, BranchModel};
use crate::render::{fn_count, fn_count_seq, render, render_spec, smap_filled};
use crate::sourcemap::{
    build_source_map, source_map_ok, source_map_spec, sources_model, with_longs, with_shorts,
    SourceModel,
};
use crate::userjournals::{build_user_journals, ron_string_map_of, UserJournals};
use vstd::prelude::*;

verus! {

broadcast use vstd::std_specs::vec::group_vec_axioms, vstd::seq::group_seq_axioms;

/// The number of open-footnote tokens in a stream.
fn count_opens(tokens: &Vec<Token>) -> (c: usize)
    ensures
        c as int == opens_from(toks(tokens@), 0),
{
    let ghost ts = toks(tokens@);
    let n: usize = tokens.len();
    let mut c: usize = 0;
    let mut i: usize = 0;
    proof {
        assert(ts.len() == n);
    }
    while i < n
        invariant
            n == tokens@.len(),
            ts == toks(tokens@),
            ts.len() == n,
            i <= n,
            c <= i,
            opens_from(ts, 0) == c + opens_from(ts, i as int),
        decreases n - i,
    {
        proof {
            assert(ts[i as int] == tokens@[i as int]@);
        }
        match tokens[i].token_type {
            TokenType::OpenFootnote => {
                c = c + 1;
            },
            _ => {},
        }
        i = i + 1;
    }
    c
}

/// The number of footnotes in a branch, counted with a cap: past the largest
/// footnote number the count only reports that it is out of range.
fn count_fns(b: &Branch) -> (r: Option<i64>)
    ensures
        match r {
            Some(x) => x as int == fn_count(crate::parser::branch_model(*b)) && x
                <= i32::MAX as i64,
            None => fn_count(crate::parser::branch_model(*b)) > i32::MAX as int,
        },
    decreases crate::render::bm_size(crate::parser::branch_model(*b)),
{
    match b {
        Branch::Footnote(f) => {
            let ghost fcm = branches_model(f.contents@);
            let mut total: i64 = 1;
            let m: usize = f.contents.len();
            let mut j: usize = 0;
            proof {
                crate::parser::lemma_branches_model(f.contents@);
            }
            while j < m
                invariant
                    m == f.contents@.len(),
                    j <= m,
                    fcm == branches_model(f.contents@),
                    fcm.len() == m,
                    forall|k: int|
                        0 <= k < m ==> fcm[k] == crate::parser::branch_model(f.contents@[k]),
                    crate::parser::branch_model(*b) matches BranchModel::Footnote(fm)
                        && fm.contents == fcm,
                    1 <= total,
                    total <= i32::MAX as i64,
                    total as int == 1 + fn_count_seq(fcm, 0) - fn_count_seq(fcm, j as int),
                decreases m - j,
            {
                proof {
                    assert(fcm[j as int] == crate::parser::branch_model(f.contents@[j as int]));
                    let pm = crate::parser::branch_model(*b);
                    crate::render::lemma_bms_size_elem(fcm, 0, j as int);
                    crate::render::lemma_bm_size_pos(fcm[j as int]);
                    crate::render::lemma_fn_count_seq_nonneg(fcm, j + 1);
                    crate::render::lemma_fn_count_nonneg(fcm[j as int]);
                }
                match count_fns(&f.contents[j]) {
                    Some(x) => {
                        if total > 0x7fff_ffffi64 - x {
                            proof {
                                crate::render::lemma_fn_count_seq_nonneg(fcm, j + 1);
                            }
                            return None;
                        }
                        total = total + x;
                    },
                    None => {
                        proof {
                            crate::render::lemma_fn_count_seq_nonneg(fcm, j + 1);
                        }
                        return None;
                    },
                }
                j = j + 1;
            }
            Some(total)
        },
        _ => Some(0),
    }
}

/// The number of footnotes in a tree, counted with a cap.
fn count_fns_tree(tree: &Vec<Branch>) -> (r: Option<i64>)
    ensures
        match r {
            Some(x) => x as int == fn_count_seq(branches_model(tree@), 0) && x <= i32::MAX as i64,
            None => fn_count_seq(branches_model(tree@), 0) > i32::MAX as int,
        },
{
    let ghost tm = branches_model(tree@);
    let mut total: i64 = 0;
    let n: usize = tree.len();
    let mut i: usize = 0;
    proof {
        crate::parser::lemma_branches_model(tree@);
    }
    while i < n
        invariant
            n == tree@.len(),
            i <= n,
            tm == branches_model(tree@),
            tm.len() == n,
            forall|k: int| 0 <= k < n ==> tm[k] == crate::parser::branch_model(tree@[k]),
            0 <= total,
            total <= i32::MAX as i64,
            total as int == fn_count_seq(tm, 0) - fn_count_seq(tm, i as int),
        decreases n - i,
    {
        proof {
            assert(tm[i as int] == crate::parser::branch_model(tree@[i as int]));
            crate::render::lemma_fn_count_seq_nonneg(tm, i + 1);
            crate::render::lemma_fn_count_nonneg(tm[i as int]);
        }
        match count_fns(&tree[i]) {
            Some(x) => {
                if total > 0x7fff_ffffi64 - x {
                    proof {
                        crate::render::lemma_fn_count_seq_nonneg(tm, i + 1);
                    }
                    return None;
                }
                total = total + x;
            },
            None => {
                proof {
                    crate::render::lemma_fn_count_seq_nonneg(tm, i + 1);
                }
                return None;
            },
        }
        i = i + 1;
    }
    proof {
        crate::render::lemma_fn_count_seq_nonneg(tm, n as int);
    }
    Some(total)
}

/// The text a document renders to, once its tokens, tree, source map, and
/// cross-reference map are all in hand.
pub open spec fn rendered_spec(
    tree: Seq<BranchModel>,
    lib: Seq<CslModel>,
    ujv: Seq<(Seq<char>, Seq<char>)>,
) -> Seq<char> {
    render_spec(
        tree,
        crate::crossref::crossref_map_spec(tree),
        source_map_spec(tree, lib, ujv),
    ).0
}

/// What one run of the pipeline yields over a document, a parsed library,
/// and a parsed journal table: the lexer's error verbatim; a fixed message
/// when a footnote count exceeds its counter; the first uncitable record's
/// message when a cited source has no title; and otherwise exactly the
/// rendered text, with the small-caps rewrite when asked for.
pub open spec fn pipeline_claim(
    s: Seq<char>,
    lib: Seq<CslModel>,
    ujm: Seq<(Seq<char>, Seq<char>)>,
    offset: int,
    sc: bool,
    r: Result<String, String>,
) -> bool {
    match lex_spec(s) {
        Err(le) => r matches Err(e) && e@ == le,
        Ok(ts) => {
            if offset + opens_from(ts, 0) > i32::MAX {
                r matches Err(e) && e@ == "the input holds too many footnotes for the counter"@
            } else {
                let tree = parse_spec(ts, offset);
                if fn_count_seq(tree, 0) > i32::MAX {
                    r matches Err(e) && e@
                        == "the input holds too many footnotes for the counter"@
                } else if !source_map_ok(tree, lib) {
                    r matches Err(e) && ({
                        let hm = crate::sourcemap::herein_pass(
                            crate::sourcemap::start_map_spec(tree, lib),
                        );
                        crate::sourcemap::first_untitled(hm, lib, 0) matches Some(j) && e@
                            == crate::buildsource::no_title_msg(lib[hm[j].csl_index])
                    })
                } else {
                    r matches Ok(out) && out@ == (if sc {
                        smallcaps_spec(rendered_spec(tree, lib, ujm))
                    } else {
                        rendered_spec(tree, lib, ujm)
                    })
                }
            }
        },
    }
}

/// Run the citation pipeline over a document and an already-loaded library.
///
/// The lexer, parser, source resolver, cross-reference resolver, and
/// renderer run in order; the optional small-caps rewrite runs last.  The
/// run fails exactly when the lexer rejects the document, a cited source has
/// no title, or a machine limit on footnote counts is exceeded.
pub fn process_document(
    input: &str,
    csl_library: &Vec<CSLSource>,
    user_journals: &Option<UserJournals>,
    offset: i32,
    apply_smallcaps: bool,
) -> (r: Result<String, String>)
    ensures
        pipeline_claim(
            input@,
            csl_models(csl_library@),
            crate::citetools::uj_view(*user_journals),
            offset as int,
            apply_smallcaps,
            r,
        ),
{
    // Lex the markdown input.
    let tokens = match lexer(input) {
        Ok(t) => t,
        Err(e) => {
            return Err(e);
        },
    };
    // Machine limit: the footnote counter must fit its type.
    let opens = count_opens(&tokens);
    proof {
        crate::parser::lemma_opens_from_nonneg(toks(tokens@), 0);
    }
    if (offset as i128) + (opens as i128) > 0x7fff_ffffi128 {
        return Err(String::from_str("the input holds too many footnotes for the counter"));
    }
    // Parse the tokens into the syntax tree.
    let tree = match parser(&tokens, offset) {
        Ok(t) => t,
        Err(e) => {
            return Err(e);
        },
    };
    // Machine limit again, for the renderer's own counter.
    match count_fns_tree(&tree) {
        Some(_) => {},
        None => {
            return Err(String::from_str("the input holds too many footnotes for the counter"));
        },
    }
    // Build the source map.
    let mut source_map = match build_source_map(&tree, csl_library, user_journals) {
        Ok(m) => m,
        Err(e) => {
            return Err(e);
        },
    };
    // Create the crossref map.
    let crossref_map = build_crossref_map(&tree);
    // The synthesis passes filled in every source's citation strings.
    proof {
        let tm = branches_model(tree@);
        let ujv = crate::citetools::uj_view(*user_journals);
        let cm = csl_models(csl_library@);
        let sm0 = crate::sourcemap::start_map_spec(tm, cm);
        let hm = crate::sourcemap::herein_pass(sm0);
        let lm = crate::sourcemap::longs_pass(hm, cm, ujv);
        let fm = crate::sourcemap::shorts_pass(lm, cm);
        assert(smap_filled(sources_model(source_map@))) by {
            assert forall|k: int| 0 <= k < fm.len() implies {
                &&& (#[trigger] fm[k]).long_cite_no_pin is Some
                &&& fm[k].long_cite_w_pin is Some
                &&& fm[k].short_cite_no_pin is Some
                &&& fm[k].short_cite_w_pin is Some
                &&& fm[k].all_footnotes.len() > 0
            } by {
                let msm = sources_model(source_map@);
                assert(fm[k] == with_shorts(lm[k], cm));
                assert(lm[k] == with_longs(hm[k], cm, ujv));
                assert(msm[k] == fm[k]);
                assert(0 <= msm[k].csl_index < csl_library@.len() && !(msm[k].source_type
                    is Other) && msm[k].all_footnotes.len() > 0 && msm[k].short_author is Some);
            }
        }
    }
    // Render the output.
    let output = render(&tree, &mut source_map, &crossref_map);
    // Optionally add True Small Caps.
    if apply_smallcaps {
        Ok(smallcaps(output.as_str()))
    } else {
        Ok(output)
    }
}

/// The pre-processor function.
///
/// Deserializes the library and the optional user-journal table, then runs
/// the pipeline.  A malformed library or journal table is an error, each
/// reported with its own prefix; over a well-formed library and table the
/// result is exactly what the pipeline yields for their parsed contents.
pub fn pre(
    input: &str,
    library: &str,
    user_journals: &Option<String>,
    offset: i32,
    smallcaps_opt: bool,
) -> (r: Result<String, String>)
    ensures
        lex_spec(input@) is Err ==> r is Err,
        r is Ok ==> lex_spec(input@) is Ok,
        match csl_lib_spec(library@) {
            None => r matches Err(e) && crate::text::contains_sub(
                e@,
                "error deserializing the CSL JSON"@,
            ),
            Some(libm) => match *user_journals {
                Some(ujs) => match ron_string_map_of(ujs@) {
                    None => r matches Err(e) && crate::text::contains_sub(
                        e@,
                        "error deserializing the user journal file"@,
                    ),
                    Some(ujm) => pipeline_claim(
                        input@,
                        libm,
                        ujm,
                        offset as int,
                        smallcaps_opt,
                        r,
                    ),
                },
                None => pipeline_claim(
                    input@,
                    libm,
                    Seq::empty(),
                    offset as int,
                    smallcaps_opt,
                    r,
                ),
            },
        },
{
    // Deserialize the CSL library file.
    let csl_library = match build_csl_lib(library) {
        Ok(l) => l,
        Err(e) => {
            return Err(e);
        },
    };
    // If there's a user journals list, deserialize it into the user journals
    // map.
    let user_journals: Option<UserJournals> = match user_journals {
        Some(s) => {
            match build_user_journals(s.as_str()) {
                Ok(u) => Some(u),
                Err(e) => {
                    return Err(e);
                },
            }
        },
        None => None,
    };
    process_document(input, &csl_library, &user_journals, offset, smallcaps_opt)
}

/// The warnings one run would log: citations whose key is unknown to the
/// library, or whose record has a missing or unsupported type.  Such
/// citations render unresolved; the warnings make that visible without
/// failing the run.
pub fn pre_warnings(input: &str, library: &str, offset: i32) -> (r: Result<Vec<String>, String>)
    ensures
        match csl_lib_spec(library@) {
            None => r is Err,
            Some(libm) => match lex_spec(input@) {
                Err(_) => r is Err,
                Ok(ts) => {
                    if offset + opens_from(ts, 0) > i32::MAX {
                        r is Err
                    } else {
                        r matches Ok(w) && crate::render::strings_model(w@)
                            == crate::sourcemap::discovery_warnings_spec(
                            parse_spec(ts, offset as int),
                            libm,
                        )
                    }
                },
            },
        },
{
    let csl_library = match build_csl_lib(library) {
        Ok(l) => l,
        Err(e) => {
            return Err(e);
        },
    };
    let tokens = match lexer(input) {
        Ok(t) => t,
        Err(e) => {
            return Err(e);
        },
    };
    let opens = count_opens(&tokens);
    proof {
        crate::parser::lemma_opens_from_nonneg(toks(tokens@), 0);
    }
    if (offset as i128) + (opens as i128) > 0x7fff_ffffi128 {
        return Err(String::from_str("the input holds too many footnotes for the counter"));
    }
    let tree = match parser(&tokens, offset) {
        Ok(t) => t,
        Err(e) => {
            return Err(e);
        },
    };
    Ok(crate::sourcemap::discovery_warnings(&tree, &csl_library))
}

} // verus!
