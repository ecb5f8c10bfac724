//! The emitter: walks the schema model and produces the ordered sequence of
//! output lines — the fixed runtime preamble, one alias per definition in
//! ascending name order, and per-operation parameter types, response unions
//! and client functions.

use vstd::prelude::*;
use vstd::string::*;

use crate::ordering::{
    assoc_map_spec, build_assoc, has_name_spec, lemma_assoc_map_props, lemma_sort_pairs_props,
    names_unique_spec, sort_pairs, sort_pairs_spec,
};
use crate::parser::{
    body_type_spec, in_body_spec, normalize_key, normalize_key_spec, parse_enum, parse_enum_spec,
    params_resolvable_spec, path_entries_spec, query_entries_spec, raw_type_spec,
    response_type_spec, create_raw_type_from_properties, Definition, DefinitionPropertyMap,
    Operation, OperationParameter, OperationResponseMap, Path, ResponsePayload, Schema,
};
use crate::sanitizer::{create_input_type_name_from_path, input_type_name_spec};
use crate::text::{
    join_with, join_with_spec, lex_le_spec, lower_spec, replace_char, replace_char_spec,
    split_char, split_char_spec, to_lower, trim_end_char, trim_end_char_spec, vec_contains_string,
};

verus! {

/// The fixed runtime preamble: URL building and the fetch and mutate
/// helpers the generated functions delegate to.
pub open spec fn baseline_spec() -> Seq<char> {
    "\ntype Record = { [key: string]: string | number | boolean | undefined };\ntype Params = { query: Record; path: Record };\n\nfunction createUrl(url: string, params: Params) {\n\tconst _url = Object.keys(params || {}).reduce(\n\t\t(acc, key) => acc.replace(`{${key}}`, params[key]),\n\t\turl,\n\t);\n\n\tconst completeUrl = new URL(_url);\n\tObject.keys(params.query).forEach((key) => {\n\t\tcompleteUrl.searchParams.append(key, params.query[key]?.toString() ?? \"\");\n\t});\n\n\treturn completeUrl;\n}\n\nasync function fetcher<TResult, TErr>(\n  url: string,\n  params: { query: Record; path: Record },\n  init?: RequestInit,\n) {\n\nconst _init = init ? { ...init, method: \"GET\" } : { method: \"GET\" };\nconst _url = Object.keys(params || {}).reduce(\n\t(acc, key) => acc.replace(`{$key}`, params[key]),\n\turl,\n);\n\nconst completeUrl = new URL(_url);\nObject.keys(params.query).forEach((key) => {\n\tconst val = params.query[key];\n\tif (!val) {\n\t\treturn;\n\t}\n\n\tcompleteUrl.searchParams.append(key, val.toString());\n});\n\n  const res = await fetch(completeUrl, _init);\n  const bodyData = await res.json();\n\n  if (!res.ok) {\n    return bodyData as TErr;\n  }\n\n  return bodyData as TResult;\n}\n\n\nasync function mutator<TBody, TResult, TErr>(\n\tmethod: \"POST\" | \"PUT\" | \"DELETE\" | \"PATCH\",\n\turl: string,\n\tparams: Params,\n\tbody: TBody | null,\n\tinit?: RequestInit,\n) {\n\tconst _init = Object.assign(init ?? {}, {\n\t\tmethod,\n\t\tbody: body ? JSON.stringify(body) : undefined,\n\t});\n\n\tconst res = await fetch(createUrl(url, params), _init);\n\tconst bodyData = await res.json();\n\n\tif (!res.ok) {\n\t\treturn bodyData as TErr;\n\t}\n\n\treturn bodyData as TResult;\n}\n\n"@
}

pub fn generate_baselines(lines: &mut Vec<String>)
    ensures
        final(lines).deep_view() == old(lines).deep_view().push(baseline_spec()),
{
    let ghost base = lines.deep_view();
    lines.push(String::from_str(
        "\ntype Record = { [key: string]: string | number | boolean | undefined };\ntype Params = { query: Record; path: Record };\n\nfunction createUrl(url: string, params: Params) {\n\tconst _url = Object.keys(params || {}).reduce(\n\t\t(acc, key) => acc.replace(`{${key}}`, params[key]),\n\t\turl,\n\t);\n\n\tconst completeUrl = new URL(_url);\n\tObject.keys(params.query).forEach((key) => {\n\t\tcompleteUrl.searchParams.append(key, params.query[key]?.toString() ?? \"\");\n\t});\n\n\treturn completeUrl;\n}\n\nasync function fetcher<TResult, TErr>(\n  url: string,\n  params: { query: Record; path: Record },\n  init?: RequestInit,\n) {\n\nconst _init = init ? { ...init, method: \"GET\" } : { method: \"GET\" };\nconst _url = Object.keys(params || {}).reduce(\n\t(acc, key) => acc.replace(`{$key}`, params[key]),\n\turl,\n);\n\nconst completeUrl = new URL(_url);\nObject.keys(params.query).forEach((key) => {\n\tconst val = params.query[key];\n\tif (!val) {\n\t\treturn;\n\t}\n\n\tcompleteUrl.searchParams.append(key, val.toString());\n});\n\n  const res = await fetch(completeUrl, _init);\n  const bodyData = await res.json();\n\n  if (!res.ok) {\n    return bodyData as TErr;\n  }\n\n  return bodyData as TResult;\n}\n\n\nasync function mutator<TBody, TResult, TErr>(\n\tmethod: \"POST\" | \"PUT\" | \"DELETE\" | \"PATCH\",\n\turl: string,\n\tparams: Params,\n\tbody: TBody | null,\n\tinit?: RequestInit,\n) {\n\tconst _init = Object.assign(init ?? {}, {\n\t\tmethod,\n\t\tbody: body ? JSON.stringify(body) : undefined,\n\t});\n\n\tconst res = await fetch(createUrl(url, params), _init);\n\tconst bodyData = await res.json();\n\n\tif (!res.ok) {\n\t\treturn bodyData as TErr;\n\t}\n\n\treturn bodyData as TResult;\n}\n\n",
    ));
    proof {
        assert(lines.deep_view() =~~= base.push(baseline_spec()));
    }
}

/// The token one path segment contributes to a function name: nothing for
/// an empty segment, the placeholder token for a `{variable}` segment, and
/// the segment itself with a separator otherwise.
pub open spec fn seg_token_spec(seg: Seq<char>) -> Seq<char> {
    if seg.len() == 0 {
        Seq::<char>::empty()
    } else if seg[0] == '{' && seg[seg.len() - 1] == '}' {
        "by_"@
    } else {
        seg + "_"@
    }
}

/// The concatenated tokens of all segments, in order.
pub open spec fn seg_tokens_spec(segs: Seq<Seq<char>>) -> Seq<char>
    decreases segs.len(),
{
    if segs.len() == 0 {
        Seq::<char>::empty()
    } else {
        seg_tokens_spec(segs.drop_last()) + seg_token_spec(segs.last())
    }
}

/// The function name for one operation: the lowercased method, the segment
/// tokens of the URL template, trailing separators trimmed and dashes
/// flattened to underscores.
pub open spec fn fn_name_spec(method: Seq<char>, path: Seq<char>) -> Seq<char> {
    replace_char_spec(
        trim_end_char_spec(
            lower_spec(method) + "_"@ + seg_tokens_spec(split_char_spec(path, '/')),
            '_',
        ),
        '-',
        '_',
    )
}

pub fn generate_fn_name(method: String, path: String) -> (r: String)
    ensures
        r@ == fn_name_spec(method@, path@),
{
    let mut fn_name = to_lower(method.as_str());
    fn_name.append("_");
    let segs = split_char(path.as_str(), '/');
    let mut i: usize = 0;
    proof {
        assert(segs.deep_view().take(0) =~= Seq::<Seq<char>>::empty());
        assert(fn_name@ =~= lower_spec(method@) + "_"@ + seg_tokens_spec(
            segs.deep_view().take(0),
        ));
    }
    while i < segs.len()
        invariant
            i <= segs@.len(),
            segs@.len() == segs.deep_view().len(),
            forall|k: int| 0 <= k < segs@.len() ==> (#[trigger] segs@[k])@ == segs.deep_view()[k],
            fn_name@ == lower_spec(method@) + "_"@ + seg_tokens_spec(
                segs.deep_view().take(i as int),
            ),
        decreases segs@.len() - i,
    {
        proof {
            assert(segs.deep_view().take(i + 1).drop_last() =~= segs.deep_view().take(i as int));
            assert(segs.deep_view().take(i + 1).last() == segs.deep_view()[i as int]);
        }
        let seg = &segs[i];
        let n = seg.as_str().unicode_len();
        if n == 0 {
            proof {
                assert(fn_name@ =~= lower_spec(method@) + "_"@ + seg_tokens_spec(
                    segs.deep_view().take(i + 1),
                ));
            }
        } else if seg.as_str().get_char(0) == '{' && seg.as_str().get_char(n - 1) == '}' {
            fn_name.append("by_");
            proof {
                assert(fn_name@ =~= lower_spec(method@) + "_"@ + seg_tokens_spec(
                    segs.deep_view().take(i + 1),
                ));
            }
        } else {
            fn_name.append(seg.as_str());
            fn_name.append("_");
            proof {
                assert(fn_name@ =~= lower_spec(method@) + "_"@ + seg_tokens_spec(
                    segs.deep_view().take(i + 1),
                ));
            }
        }
        i = i + 1;
    }
    proof {
        assert(segs.deep_view().take(segs.deep_view().len() as int) =~= segs.deep_view());
    }
    let trimmed = trim_end_char(fn_name.as_str(), '_');
    replace_char(trimmed.as_str(), '-', '_')
}

/// True when the status code names the success class.
pub open spec fn is_success_code_spec(k: Seq<char>) -> bool {
    k.len() > 0 && k[0] == '2'
}

/// True when the status code names the error class.
pub open spec fn is_error_code_spec(k: Seq<char>) -> bool {
    k.len() > 0 && (k[0] == '4' || k[0] == '5')
}

/// The resolved types of the success-class responses, in document order.
pub open spec fn success_types_spec(rs: Seq<(String, ResponsePayload)>) -> Seq<Seq<char>>
    decreases rs.len(),
{
    if rs.len() == 0 {
        Seq::<Seq<char>>::empty()
    } else if is_success_code_spec(rs.last().0@) {
        success_types_spec(rs.drop_last()).push(response_type_spec(rs.last().1))
    } else {
        success_types_spec(rs.drop_last())
    }
}

/// The resolved types of the error-class responses, in document order.
pub open spec fn error_types_spec(rs: Seq<(String, ResponsePayload)>) -> Seq<Seq<char>>
    decreases rs.len(),
{
    if rs.len() == 0 {
        Seq::<Seq<char>>::empty()
    } else if is_error_code_spec(rs.last().0@) {
        error_types_spec(rs.drop_last()).push(response_type_spec(rs.last().1))
    } else {
        error_types_spec(rs.drop_last())
    }
}

/// The sequence with later duplicates removed; the first occurrence of each
/// element keeps its place.
pub open spec fn dedup_spec(s: Seq<Seq<char>>) -> Seq<Seq<char>>
    decreases s.len(),
{
    if s.len() == 0 {
        s
    } else {
        let rest = dedup_spec(s.drop_last());
        if rest.contains(s.last()) {
            rest
        } else {
            rest.push(s.last())
        }
    }
}

pub proof fn lemma_dedup_empty(s: Seq<Seq<char>>)
    ensures
        (dedup_spec(s).len() == 0) == (s.len() == 0),
    decreases s.len(),
{
    if s.len() > 0 {
        lemma_dedup_empty(s.drop_last());
        let rest = dedup_spec(s.drop_last());
        if !rest.contains(s.last()) {
            assert(dedup_spec(s) == rest.push(s.last()));
        }
    }
}

/// The success union: the distinct resolved success types joined with the
/// union operator, or the bottom type when the success class is empty.
pub open spec fn success_union_spec(rs: Seq<(String, ResponsePayload)>) -> Seq<char> {
    if success_types_spec(rs).len() == 0 {
        "never"@
    } else {
        join_with_spec(dedup_spec(success_types_spec(rs)), " | "@)
    }
}

/// The error union: the distinct resolved error types joined with the
/// union operator, or the bottom type when the error class is empty.
pub open spec fn error_union_spec(rs: Seq<(String, ResponsePayload)>) -> Seq<char> {
    if error_types_spec(rs).len() == 0 {
        "never"@
    } else {
        join_with_spec(dedup_spec(error_types_spec(rs)), " | "@)
    }
}

fn collect_success_types(responses: &OperationResponseMap) -> (r: Vec<String>)
    ensures
        r.deep_view() == dedup_spec(success_types_spec(responses@)),
{
    let mut out: Vec<String> = Vec::new();
    let mut i: usize = 0;
    proof {
        assert(responses@.take(0) =~= Seq::<(String, ResponsePayload)>::empty());
    }
    while i < responses.len()
        invariant
            i <= responses@.len(),
            out.deep_view() == dedup_spec(success_types_spec(responses@.take(i as int))),
        decreases responses@.len() - i,
    {
        proof {
            assert(responses@.take(i + 1).drop_last() =~= responses@.take(i as int));
            assert(responses@.take(i + 1).last() == responses@[i as int]);
        }
        let key = &responses[i].0;
        let kn = key.as_str().unicode_len();
        if kn > 0 && key.as_str().get_char(0) == '2' {
            proof {
                let st = success_types_spec(responses@.take(i as int));
                let rt = response_type_spec(responses@[i as int].1);
                assert(success_types_spec(responses@.take(i + 1)) == st.push(rt));
                assert(st.push(rt).drop_last() =~= st);
                assert(st.push(rt).last() == rt);
            }
            let t = responses[i].1.parse_response();
            if !vec_contains_string(&out, &t) {
                let ghost prev = out.deep_view();
                let ghost tv = t@;
                out.push(t);
                proof {
                    assert(out.deep_view() =~~= prev.push(tv));
                }
            }
        }
        i = i + 1;
    }
    proof {
        assert(responses@.take(responses@.len() as int) =~= responses@);
    }
    out
}

fn collect_error_types(responses: &OperationResponseMap) -> (r: Vec<String>)
    ensures
        r.deep_view() == dedup_spec(error_types_spec(responses@)),
{
    let mut out: Vec<String> = Vec::new();
    let mut i: usize = 0;
    proof {
        assert(responses@.take(0) =~= Seq::<(String, ResponsePayload)>::empty());
    }
    while i < responses.len()
        invariant
            i <= responses@.len(),
            out.deep_view() == dedup_spec(error_types_spec(responses@.take(i as int))),
        decreases responses@.len() - i,
    {
        proof {
            assert(responses@.take(i + 1).drop_last() =~= responses@.take(i as int));
            assert(responses@.take(i + 1).last() == responses@[i as int]);
        }
        let key = &responses[i].0;
        let kn = key.as_str().unicode_len();
        let c0 = if kn > 0 {
            key.as_str().get_char(0)
        } else {
            ' '
        };
        if kn > 0 && (c0 == '4' || c0 == '5') {
            proof {
                let st = error_types_spec(responses@.take(i as int));
                let rt = response_type_spec(responses@[i as int].1);
                assert(error_types_spec(responses@.take(i + 1)) == st.push(rt));
                assert(st.push(rt).drop_last() =~= st);
                assert(st.push(rt).last() == rt);
            }
            let t = responses[i].1.parse_response();
            if !vec_contains_string(&out, &t) {
                let ghost prev = out.deep_view();
                let ghost tv = t@;
                out.push(t);
                proof {
                    assert(out.deep_view() =~~= prev.push(tv));
                }
            }
        }
        i = i + 1;
    }
    proof {
        assert(responses@.take(responses@.len() as int) =~= responses@);
    }
    out
}

/// The first parameter carried in the request body, if any.
pub open spec fn find_body_param_spec(ps: Seq<OperationParameter>) -> Option<OperationParameter>
    decreases ps.len(),
{
    if ps.len() == 0 {
        Option::None
    } else if in_body_spec(ps[0]) {
        Option::Some(ps[0])
    } else {
        find_body_param_spec(ps.drop_first())
    }
}

/// The request-body type of an operation: the body parameter's resolved
/// reference, or the bottom type when no parameter is carried in the body.
pub open spec fn op_body_type_spec(op: Operation) -> Seq<char> {
    match find_body_param_spec(op.parameters@) {
        Option::Some(p) => body_type_spec(p),
        Option::None => "never"@,
    }
}

fn find_body_type(parameters: &Vec<OperationParameter>) -> (r: Option<String>)
    ensures
        r is Some <==> find_body_param_spec(parameters@) is Some,
        r is Some ==> r->0@ == body_type_spec(find_body_param_spec(parameters@)->0),
{
    let mut i: usize = 0;
    proof {
        assert(parameters@.skip(0) =~= parameters@);
    }
    while i < parameters.len()
        invariant
            i <= parameters@.len(),
            find_body_param_spec(parameters@) == find_body_param_spec(parameters@.skip(i as int)),
        decreases parameters@.len() - i,
    {
        proof {
            assert(parameters@.skip(i as int)[0] == parameters@[i as int]);
            assert(parameters@.skip(i as int).drop_first() =~= parameters@.skip(i + 1));
        }
        let param = &parameters[i];
        let is_body = match param.in_field {
            crate::parser::OperationParameterField::Body => true,
            _ => false,
        };
        if is_body {
            let bt = param.parse_body();
            return Some(bt);
        }
        i = i + 1;
    }
    proof {
        assert(parameters@.skip(parameters@.len() as int) =~= Seq::<OperationParameter>::empty());
    }
    None
}

/// The input-parameters alias line of one operation.
pub open spec fn params_type_line_spec(tmp_key: Seq<char>, op: Operation) -> Seq<char> {
    "\n\ntype "@ + tmp_key + " = { query: {"@ + join_with_spec(
        query_entries_spec(op.parameters@),
        ", "@,
    ) + "}, path: {"@ + join_with_spec(path_entries_spec(op.parameters@), ", "@) + "} };\n"@
}

/// The success-union alias line of one operation.
pub open spec fn response_line_spec(fn_name: Seq<char>, rs: Seq<(String, ResponsePayload)>) -> Seq<
    char,
> {
    "type "@ + fn_name + "_response = "@ + success_union_spec(rs) + ";\n"@
}

/// The error-union alias line of one operation.
pub open spec fn error_line_spec(fn_name: Seq<char>, rs: Seq<(String, ResponsePayload)>) -> Seq<
    char,
> {
    "type "@ + fn_name + "_error = "@ + error_union_spec(rs) + ";\n"@
}

/// The request-body alias line of a mutating operation.
pub open spec fn body_line_spec(fn_name: Seq<char>, body_type: Seq<char>) -> Seq<char> {
    "type "@ + fn_name + "_body= "@ + body_type + ";\n"@
}

/// The exported fetch function of a GET operation.
pub open spec fn fetcher_fn_line_spec(key: Seq<char>, tmp_key: Seq<char>, fn_name: Seq<char>) -> Seq<
    char,
> {
    "export async function "@ + fn_name + "(props: "@ + tmp_key
        + ") {\n    return fetcher<"@ + fn_name + "_response, "@ + fn_name + "_error>(\""@ + key
        + "\", props);\n}\n"@
}

/// The exported mutate function of an operation that carries a body.
pub open spec fn mutator_body_fn_line_spec(
    method: Seq<char>,
    key: Seq<char>,
    tmp_key: Seq<char>,
    fn_name: Seq<char>,
) -> Seq<char> {
    "export async function "@ + fn_name + "(props: "@ + tmp_key + ", body: "@ + fn_name
        + "_body, init?: RequestInit) {\n    return mutator<"@ + fn_name + "_body, "@ + fn_name
        + "_response, "@ + fn_name + "_error>(\""@ + method + "\", \""@ + key
        + "\", props, body, init);\n}\n"@
}

/// The exported mutate function of an operation with no body parameter.
pub open spec fn mutator_null_fn_line_spec(
    method: Seq<char>,
    key: Seq<char>,
    tmp_key: Seq<char>,
    fn_name: Seq<char>,
) -> Seq<char> {
    "export async function "@ + fn_name + "(props: "@ + tmp_key
        + ", init?: RequestInit) {\n    return mutator<never, "@ + fn_name + "_response, "@
        + fn_name + "_error>(\""@ + method + "\", \""@ + key + "\", props, null, init);\n}\n"@
}

/// The four lines a GET operation contributes.
pub open spec fn fetcher_lines_spec(key: Seq<char>, op: Operation) -> Seq<Seq<char>> {
    let tmp_key = input_type_name_spec(key, Option::None);
    let fn_name = fn_name_spec("get"@, key);
    seq![
        params_type_line_spec(tmp_key, op),
        response_line_spec(fn_name, op.responses@),
        error_line_spec(fn_name, op.responses@),
        fetcher_fn_line_spec(key, tmp_key, fn_name),
    ]
}

/// The five lines a mutating operation contributes.
pub open spec fn mutator_lines_spec(key: Seq<char>, method: Seq<char>, op: Operation) -> Seq<
    Seq<char>,
> {
    let tmp_key = input_type_name_spec(key, Option::Some(lower_spec(method)));
    let fn_name = fn_name_spec(method, key);
    seq![
        params_type_line_spec(tmp_key, op),
        response_line_spec(fn_name, op.responses@),
        error_line_spec(fn_name, op.responses@),
        body_line_spec(fn_name, op_body_type_spec(op)),
        (match find_body_param_spec(op.parameters@) {
            Option::Some(_) => mutator_body_fn_line_spec(method, key, tmp_key, fn_name),
            Option::None => mutator_null_fn_line_spec(method, key, tmp_key, fn_name),
        }),
    ]
}

pub fn generate_fetcher(key: &String, op: &Operation, lines: &mut Vec<String>)
    requires
        params_resolvable_spec(*op),
    ensures
        final(lines).deep_view() == old(lines).deep_view() + fetcher_lines_spec(key@, *op),
{
    let ghost base = lines.deep_view();
    let query_type = op.parse_query();
    let path_type = op.parse_path();
    let tmp_key = create_input_type_name_from_path(key, None);
    let fn_name = generate_fn_name(String::from_str("get"), key.clone());

    let mut l1 = String::from_str("\n\ntype ");
    l1.append(tmp_key.as_str());
    l1.append(" = { query: {");
    l1.append(query_type.as_str());
    l1.append("}, path: {");
    l1.append(path_type.as_str());
    l1.append("} };\n");
    proof {
        assert(l1@ =~= params_type_line_spec(input_type_name_spec(key@, Option::None), *op));
    }
    lines.push(l1);

    let succ = collect_success_types(&op.responses);
    let mut l2 = String::from_str("type ");
    l2.append(fn_name.as_str());
    l2.append("_response = ");
    if succ.len() == 0 {
        proof {
            lemma_dedup_empty(success_types_spec(op.responses@));
        }
        l2.append("never");
    } else {
        proof {
            lemma_dedup_empty(success_types_spec(op.responses@));
        }
        let succ_union = join_with(&succ, " | ");
        l2.append(succ_union.as_str());
    }
    l2.append(";\n");
    proof {
        assert(l2@ =~= response_line_spec(fn_name_spec("get"@, key@), op.responses@));
    }
    lines.push(l2);

    let errs = collect_error_types(&op.responses);
    let mut l3 = String::from_str("type ");
    l3.append(fn_name.as_str());
    l3.append("_error = ");
    if errs.len() == 0 {
        proof {
            lemma_dedup_empty(error_types_spec(op.responses@));
        }
        l3.append("never");
    } else {
        proof {
            lemma_dedup_empty(error_types_spec(op.responses@));
        }
        let err_union = join_with(&errs, " | ");
        l3.append(err_union.as_str());
    }
    l3.append(";\n");
    proof {
        assert(l3@ =~= error_line_spec(fn_name_spec("get"@, key@), op.responses@));
    }
    lines.push(l3);

    let mut l4 = String::from_str("export async function ");
    l4.append(fn_name.as_str());
    l4.append("(props: ");
    l4.append(tmp_key.as_str());
    l4.append(") {\n    return fetcher<");
    l4.append(fn_name.as_str());
    l4.append("_response, ");
    l4.append(fn_name.as_str());
    l4.append("_error>(\"");
    l4.append(key.as_str());
    l4.append("\", props);\n}\n");
    proof {
        assert(l4@ =~= fetcher_fn_line_spec(
            key@,
            input_type_name_spec(key@, Option::None),
            fn_name_spec("get"@, key@),
        ));
    }
    lines.push(l4);

    proof {
        assert(lines.deep_view() =~~= base + fetcher_lines_spec(key@, *op));
    }
}

pub fn generate_mutator(key: &String, method: &String, op: &Operation, lines: &mut Vec<String>)
    requires
        params_resolvable_spec(*op),
    ensures
        final(lines).deep_view() == old(lines).deep_view() + mutator_lines_spec(key@, method@, *op),
{
    let ghost base = lines.deep_view();
    let query_type = op.parse_query();
    let path_type = op.parse_path();
    let lower_method = to_lower(method.as_str());
    let tmp_key = create_input_type_name_from_path(key, Some(&lower_method));
    let fn_name = generate_fn_name(method.clone(), key.clone());

    let mut l1 = String::from_str("\n\ntype ");
    l1.append(tmp_key.as_str());
    l1.append(" = { query: {");
    l1.append(query_type.as_str());
    l1.append("}, path: {");
    l1.append(path_type.as_str());
    l1.append("} };\n");
    proof {
        assert(l1@ =~= params_type_line_spec(
            input_type_name_spec(key@, Option::Some(lower_spec(method@))),
            *op,
        ));
    }
    lines.push(l1);

    let succ = collect_success_types(&op.responses);
    let mut l2 = String::from_str("type ");
    l2.append(fn_name.as_str());
    l2.append("_response = ");
    if succ.len() == 0 {
        proof {
            lemma_dedup_empty(success_types_spec(op.responses@));
        }
        l2.append("never");
    } else {
        proof {
            lemma_dedup_empty(success_types_spec(op.responses@));
        }
        let succ_union = join_with(&succ, " | ");
        l2.append(succ_union.as_str());
    }
    l2.append(";\n");
    proof {
        assert(l2@ =~= response_line_spec(fn_name_spec(method@, key@), op.responses@));
    }
    lines.push(l2);

    let errs = collect_error_types(&op.responses);
    let mut l3 = String::from_str("type ");
    l3.append(fn_name.as_str());
    l3.append("_error = ");
    if errs.len() == 0 {
        proof {
            lemma_dedup_empty(error_types_spec(op.responses@));
        }
        l3.append("never");
    } else {
        proof {
            lemma_dedup_empty(error_types_spec(op.responses@));
        }
        let err_union = join_with(&errs, " | ");
        l3.append(err_union.as_str());
    }
    l3.append(";\n");
    proof {
        assert(l3@ =~= error_line_spec(fn_name_spec(method@, key@), op.responses@));
    }
    lines.push(l3);

    let body = find_body_type(&op.parameters);
    let mut l4 = String::from_str("type ");
    l4.append(fn_name.as_str());
    l4.append("_body= ");
    match &body {
        Option::Some(bt) => l4.append(bt.as_str()),
        Option::None => l4.append("never"),
    }
    l4.append(";\n");
    proof {
        assert(l4@ =~= body_line_spec(fn_name_spec(method@, key@), op_body_type_spec(*op)));
    }
    lines.push(l4);

    let mut l5 = String::from_str("export async function ");
    l5.append(fn_name.as_str());
    l5.append("(props: ");
    l5.append(tmp_key.as_str());
    match &body {
        Option::Some(_) => {
            l5.append(", body: ");
            l5.append(fn_name.as_str());
            l5.append("_body, init?: RequestInit) {\n    return mutator<");
            l5.append(fn_name.as_str());
            l5.append("_body, ");
            l5.append(fn_name.as_str());
            l5.append("_response, ");
            l5.append(fn_name.as_str());
            l5.append("_error>(\"");
            l5.append(method.as_str());
            l5.append("\", \"");
            l5.append(key.as_str());
            l5.append("\", props, body, init);\n}\n");
            proof {
                assert(l5@ =~= mutator_body_fn_line_spec(
                    method@,
                    key@,
                    input_type_name_spec(key@, Option::Some(lower_spec(method@))),
                    fn_name_spec(method@, key@),
                ));
            }
        },
        Option::None => {
            l5.append(", init?: RequestInit) {\n    return mutator<never, ");
            l5.append(fn_name.as_str());
            l5.append("_response, ");
            l5.append(fn_name.as_str());
            l5.append("_error>(\"");
            l5.append(method.as_str());
            l5.append("\", \"");
            l5.append(key.as_str());
            l5.append("\", props, null, init);\n}\n");
            proof {
                assert(l5@ =~= mutator_null_fn_line_spec(
                    method@,
                    key@,
                    input_type_name_spec(key@, Option::Some(lower_spec(method@))),
                    fn_name_spec(method@, key@),
                ));
            }
        },
    }
    lines.push(l5);

    proof {
        assert(lines.deep_view() =~~= base + mutator_lines_spec(key@, method@, *op));
    }
}

/// The resolved type of one definition: the enum union when an enum list is
/// declared, else the object literal of its properties (an absent property
/// map counts as empty).
pub open spec fn definition_type_spec(d: Definition) -> Seq<char> {
    match d._enum {
        Option::Some(_) => parse_enum_spec(d),
        Option::None => match d.properties {
            Option::Some(props) => raw_type_spec(props@),
            Option::None => raw_type_spec(Seq::<(String, crate::parser::DefinitionProperty)>::empty()),
        },
    }
}

/// Each definition resolved to its synthesized name and type expression, in
/// document order.
pub open spec fn resolved_defs_spec(defs: Seq<(String, Definition)>) -> Seq<
    (Seq<char>, Seq<char>),
>
    decreases defs.len(),
{
    if defs.len() == 0 {
        Seq::<(Seq<char>, Seq<char>)>::empty()
    } else {
        resolved_defs_spec(defs.drop_last()).push(
            (normalize_key_spec(defs.last().0@), definition_type_spec(defs.last().1)),
        )
    }
}

/// The definition aliases after name collision resolution (later
/// definitions win) and sorting by name.
pub open spec fn sorted_defs_spec(defs: Seq<(String, Definition)>) -> Seq<(Seq<char>, Seq<char>)> {
    sort_pairs_spec(assoc_map_spec(resolved_defs_spec(defs)))
}

/// One emitted definition alias line.
pub open spec fn definition_line_spec(name: Seq<char>, ty: Seq<char>) -> Seq<char> {
    "export type "@ + name + " = "@ + ty + ";\n"@
}

/// The alias lines for a sequence of resolved pairs, in order.
pub open spec fn def_lines_of_spec(m: Seq<(Seq<char>, Seq<char>)>) -> Seq<Seq<char>>
    decreases m.len(),
{
    if m.len() == 0 {
        Seq::<Seq<char>>::empty()
    } else {
        def_lines_of_spec(m.drop_last()).push(definition_line_spec(m.last().0, m.last().1))
    }
}

/// The definition section of the output: one alias line per distinct
/// synthesized name, in ascending name order.
pub open spec fn definition_lines_spec(defs: Seq<(String, Definition)>) -> Seq<Seq<char>> {
    def_lines_of_spec(sorted_defs_spec(defs))
}

pub fn generate_definition_types(schema: &Schema, lines: &mut Vec<String>)
    ensures
        final(lines).deep_view() == old(lines).deep_view() + definition_lines_spec(
            schema.definitions@,
        ),
{
    let ghost base = lines.deep_view();
    let mut resolved: Vec<(String, String)> = Vec::new();
    let mut i: usize = 0;
    proof {
        assert(schema.definitions@.take(0) =~= Seq::<(String, Definition)>::empty());
    }
    while i < schema.definitions.len()
        invariant
            i <= schema.definitions@.len(),
            resolved.deep_view() == resolved_defs_spec(schema.definitions@.take(i as int)),
        decreases schema.definitions@.len() - i,
    {
        proof {
            assert(schema.definitions@.take(i + 1).drop_last() =~= schema.definitions@.take(
                i as int,
            ));
            assert(schema.definitions@.take(i + 1).last() == schema.definitions@[i as int]);
        }
        let key = &schema.definitions[i].0;
        let value = &schema.definitions[i].1;
        let parsed_key = normalize_key(key);
        let raw_type = if value._enum.is_some() {
            parse_enum(value)
        } else {
            match &value.properties {
                Option::Some(props) => create_raw_type_from_properties(props),
                Option::None => {
                    let empty_props: DefinitionPropertyMap = Vec::new();
                    create_raw_type_from_properties(&empty_props)
                },
            }
        };
        let ghost prev = resolved.deep_view();
        let ghost kv = (parsed_key@, raw_type@);
        resolved.push((parsed_key, raw_type));
        proof {
            assert(resolved.deep_view() =~~= prev.push(kv));
        }
        i = i + 1;
    }
    proof {
        assert(schema.definitions@.take(schema.definitions@.len() as int) =~= schema.definitions@);
    }
    let assoc = build_assoc(&resolved);
    let sorted = sort_pairs(&assoc);
    let mut j: usize = 0;
    proof {
        assert(sorted.deep_view().take(0) =~= Seq::<(Seq<char>, Seq<char>)>::empty());
        assert(base + def_lines_of_spec(sorted.deep_view().take(0)) =~~= base);
    }
    while j < sorted.len()
        invariant
            j <= sorted@.len(),
            sorted@.len() == sorted.deep_view().len(),
            forall|k: int|
                0 <= k < sorted@.len() ==> ((#[trigger] sorted@[k]).0@ == sorted.deep_view()[k].0
                    && sorted@[k].1@ == sorted.deep_view()[k].1),
            lines.deep_view() == base + def_lines_of_spec(sorted.deep_view().take(j as int)),
        decreases sorted@.len() - j,
    {
        proof {
            assert(sorted.deep_view().take(j + 1).drop_last() =~= sorted.deep_view().take(j as int));
            assert(sorted.deep_view().take(j + 1).last() == sorted.deep_view()[j as int]);
        }
        let mut line = String::from_str("export type ");
        line.append(sorted[j].0.as_str());
        line.append(" = ");
        line.append(sorted[j].1.as_str());
        line.append(";\n");
        proof {
            assert(line@ =~= definition_line_spec(
                sorted.deep_view()[j as int].0,
                sorted.deep_view()[j as int].1,
            ));
        }
        let ghost prev = lines.deep_view();
        let ghost lv = line@;
        lines.push(line);
        proof {
            assert(lines.deep_view() =~~= prev.push(lv));
            assert(lines.deep_view() =~~= base + def_lines_of_spec(
                sorted.deep_view().take(j + 1),
            ));
        }
        j = j + 1;
    }
    proof {
        assert(sorted.deep_view().take(sorted.deep_view().len() as int) =~= sorted.deep_view());
        assert(lines.deep_view() =~~= base + definition_lines_spec(schema.definitions@));
    }
}

/// The lines one HTTP method of one path contributes.
pub open spec fn method_lines_spec(key: Seq<char>, m: Option<Operation>, method: Seq<char>) -> Seq<
    Seq<char>,
> {
    match m {
        Option::Some(op) => mutator_lines_spec(key, method, op),
        Option::None => Seq::<Seq<char>>::empty(),
    }
}

/// The lines one path contributes: its GET fetcher, then each declared
/// mutating method in the fixed order POST, PUT, DELETE, PATCH.
pub open spec fn path_lines_spec(key: Seq<char>, p: Path) -> Seq<Seq<char>> {
    (match p.get {
        Option::Some(op) => fetcher_lines_spec(key, op),
        Option::None => Seq::<Seq<char>>::empty(),
    }) + method_lines_spec(key, p.post, "POST"@) + method_lines_spec(key, p.put, "PUT"@)
        + method_lines_spec(key, p.delete, "DELETE"@) + method_lines_spec(key, p.patch, "PATCH"@)
}

/// The lines of all paths, in document order.
pub open spec fn paths_lines_spec(ps: Seq<(String, Path)>) -> Seq<Seq<char>>
    decreases ps.len(),
{
    if ps.len() == 0 {
        Seq::<Seq<char>>::empty()
    } else {
        paths_lines_spec(ps.drop_last()) + path_lines_spec(ps.last().0@, ps.last().1)
    }
}

/// True when every operation of the path resolves (no array- or
/// object-typed query or path parameter).
pub open spec fn path_resolvable_spec(p: Path) -> bool {
    &&& (match p.get {
        Option::Some(op) => params_resolvable_spec(op),
        Option::None => true,
    })
    &&& (match p.post {
        Option::Some(op) => params_resolvable_spec(op),
        Option::None => true,
    })
    &&& (match p.put {
        Option::Some(op) => params_resolvable_spec(op),
        Option::None => true,
    })
    &&& (match p.delete {
        Option::Some(op) => params_resolvable_spec(op),
        Option::None => true,
    })
    &&& (match p.patch {
        Option::Some(op) => params_resolvable_spec(op),
        Option::None => true,
    })
}

/// True when every operation of every path of the schema resolves.
pub open spec fn schema_resolvable_spec(s: Schema) -> bool {
    forall|i: int| 0 <= i < s.paths@.len() ==> path_resolvable_spec((#[trigger] s.paths@[i]).1)
}

/// The whole output: the runtime preamble, the sorted definition aliases,
/// and the per-path operation fragments in document order.
pub open spec fn file_lines_spec(s: Schema) -> Seq<Seq<char>> {
    seq![baseline_spec()] + definition_lines_spec(s.definitions@) + paths_lines_spec(s.paths@)
}

#[verifier::rlimit(100)]
fn emit_path_lines(key: &String, value: &Path, lines: &mut Vec<String>)
    requires
        path_resolvable_spec(*value),
    ensures
        final(lines).deep_view() == old(lines).deep_view() + path_lines_spec(key@, *value),
{
    let ghost g0 = lines.deep_view();
    match &value.get {
        Option::Some(op) => generate_fetcher(key, op, lines),
        Option::None => {},
    }
    proof {
        assert(lines.deep_view() =~= g0 + (match value.get {
            Option::Some(op) => fetcher_lines_spec(key@, op),
            Option::None => Seq::<Seq<char>>::empty(),
        }));
    }
    let ghost g1 = lines.deep_view();
    match &value.post {
        Option::Some(op) => {
            let method = String::from_str("POST");
            generate_mutator(key, &method, op, lines);
        },
        Option::None => {},
    }
    proof {
        assert(lines.deep_view() =~= g1 + method_lines_spec(key@, value.post, "POST"@));
    }
    let ghost g2 = lines.deep_view();
    match &value.put {
        Option::Some(op) => {
            let method = String::from_str("PUT");
            generate_mutator(key, &method, op, lines);
        },
        Option::None => {},
    }
    proof {
        assert(lines.deep_view() =~= g2 + method_lines_spec(key@, value.put, "PUT"@));
    }
    let ghost g3 = lines.deep_view();
    match &value.delete {
        Option::Some(op) => {
            let method = String::from_str("DELETE");
            generate_mutator(key, &method, op, lines);
        },
        Option::None => {},
    }
    proof {
        assert(lines.deep_view() =~= g3 + method_lines_spec(key@, value.delete, "DELETE"@));
    }
    let ghost g4 = lines.deep_view();
    match &value.patch {
        Option::Some(op) => {
            let method = String::from_str("PATCH");
            generate_mutator(key, &method, op, lines);
        },
        Option::None => {},
    }
    proof {
        assert(lines.deep_view() =~= g4 + method_lines_spec(key@, value.patch, "PATCH"@));
        assert(lines.deep_view() =~= g0 + path_lines_spec(key@, *value));
    }
}

#[verifier::rlimit(100)]
pub fn generate_file_lines(schema: Schema) -> (r: Vec<String>)
    requires
        schema_resolvable_spec(schema),
    ensures
        r.deep_view() == file_lines_spec(schema),
{
    let mut lines: Vec<String> = Vec::new();
    generate_baselines(&mut lines);
    generate_definition_types(&schema, &mut lines);
    let ghost base = lines.deep_view();
    proof {
        assert(base =~~= seq![baseline_spec()] + definition_lines_spec(schema.definitions@));
        assert(schema.paths@.take(0) =~= Seq::<(String, Path)>::empty());
        assert(base + paths_lines_spec(schema.paths@.take(0)) =~~= base);
    }
    let mut i: usize = 0;
    while i < schema.paths.len()
        invariant
            i <= schema.paths@.len(),
            schema_resolvable_spec(schema),
            lines.deep_view() == base + paths_lines_spec(schema.paths@.take(i as int)),
        decreases schema.paths@.len() - i,
    {
        proof {
            assert(schema.paths@.take(i + 1).drop_last() =~= schema.paths@.take(i as int));
            assert(schema.paths@.take(i + 1).last() == schema.paths@[i as int]);
            assert(path_resolvable_spec(schema.paths@[i as int].1));
        }
        let key = &schema.paths[i].0;
        let value = &schema.paths[i].1;
        emit_path_lines(key, value, &mut lines);
        proof {
            assert(lines.deep_view() =~= base + paths_lines_spec(schema.paths@.take(i + 1)));
        }
        i = i + 1;
    }
    proof {
        assert(schema.paths@.take(schema.paths@.len() as int) =~= schema.paths@);
        assert(lines.deep_view() =~~= file_lines_spec(schema));
    }
    lines
}

proof fn lemma_resolved_defs_names(defs: Seq<(String, Definition)>)
    ensures
        resolved_defs_spec(defs).len() == defs.len(),
        forall|j: int|
            0 <= j < defs.len() ==> (#[trigger] resolved_defs_spec(defs)[j]).0
                == normalize_key_spec(defs[j].0@),
    decreases defs.len(),
{
    if defs.len() > 0 {
        lemma_resolved_defs_names(defs.drop_last());
        assert(forall|j: int|
            0 <= j < defs.len() - 1 ==> #[trigger] defs.drop_last()[j] == defs[j]);
    }
}

/// Law: every emitted definition alias bears the dot-flattened name of some
/// definition key, every definition key's flattened name is emitted, and no
/// two emitted aliases share a name.
pub proof fn lemma_definition_alias_names(defs: Seq<(String, Definition)>)
    ensures
        forall|i: int|
            0 <= i < sorted_defs_spec(defs).len() ==> exists|j: int|
                0 <= j < defs.len() && (#[trigger] sorted_defs_spec(defs)[i]).0
                    == normalize_key_spec(defs[j].0@),
        forall|j: int|
            0 <= j < defs.len() ==> has_name_spec(
                sorted_defs_spec(defs),
                normalize_key_spec((#[trigger] defs[j]).0@),
            ),
        names_unique_spec(sorted_defs_spec(defs)),
{
    let resolved = resolved_defs_spec(defs);
    let assoc = assoc_map_spec(resolved);
    let out = sorted_defs_spec(defs);
    lemma_resolved_defs_names(defs);
    lemma_assoc_map_props(resolved);
    lemma_sort_pairs_props(assoc);
    assert forall|i: int| 0 <= i < out.len() implies exists|j: int|
        0 <= j < defs.len() && (#[trigger] out[i]).0 == normalize_key_spec(defs[j].0@) by {
        assert(assoc.contains(out[i]));
        let a = choose|a: int| 0 <= a < assoc.len() && assoc[a] == out[i];
        assert(resolved.contains(assoc[a]));
        let rj = choose|rj: int| 0 <= rj < resolved.len() && resolved[rj] == assoc[a];
        assert(out[i].0 == normalize_key_spec(defs[rj].0@));
    }
    assert forall|j: int| 0 <= j < defs.len() implies has_name_spec(
        out,
        normalize_key_spec((#[trigger] defs[j]).0@),
    ) by {
        let n = normalize_key_spec(defs[j].0@);
        assert(resolved[j].0 == n);
        assert(has_name_spec(resolved, n));
        assert(has_name_spec(assoc, n));
        assert(has_name_spec(out, n));
    }
}

/// Law: the emitted definition aliases appear in strictly ascending
/// lexicographic order by name.
pub proof fn lemma_definition_aliases_sorted(defs: Seq<(String, Definition)>)
    ensures
        forall|i: int, j: int|
            0 <= i < j < sorted_defs_spec(defs).len() ==> (lex_le_spec(
                (#[trigger] sorted_defs_spec(defs)[i]).0,
                (#[trigger] sorted_defs_spec(defs)[j]).0,
            ) && sorted_defs_spec(defs)[i].0 != sorted_defs_spec(defs)[j].0),
{
    let resolved = resolved_defs_spec(defs);
    let assoc = assoc_map_spec(resolved);
    lemma_assoc_map_props(resolved);
    lemma_sort_pairs_props(assoc);
}

/// Law: the emitted alias line sequence mirrors the sorted pairs one to
/// one, so the two laws above speak of the lines themselves.
pub proof fn lemma_def_lines_index(m: Seq<(Seq<char>, Seq<char>)>)
    ensures
        def_lines_of_spec(m).len() == m.len(),
        forall|i: int|
            0 <= i < m.len() ==> #[trigger] def_lines_of_spec(m)[i] == definition_line_spec(
                m[i].0,
                m[i].1,
            ),
    decreases m.len(),
{
    if m.len() > 0 {
        lemma_def_lines_index(m.drop_last());
        assert(forall|i: int| 0 <= i < m.len() - 1 ==> #[trigger] m.drop_last()[i] == m[i]);
    }
}

/// Law: a success class of two equal schemas collapses to one union
/// operand, and so does a singleton error class: for responses
/// `200`/`201` sharing one schema and a `404` carrying another, the
/// success union is exactly the one resolved success type and the error
/// union exactly the one resolved error type.
pub proof fn lemma_response_union_dedup(
    rs: Seq<(String, ResponsePayload)>,
    a: ResponsePayload,
    b: ResponsePayload,
)
    requires
        rs.len() == 3,
        rs[0].0@ == "200"@,
        rs[0].1 == a,
        rs[1].0@ == "201"@,
        rs[1].1 == a,
        rs[2].0@ == "404"@,
        rs[2].1 == b,
    ensures
        success_union_spec(rs) == response_type_spec(a),
        error_union_spec(rs) == response_type_spec(b),
{
    reveal_strlit("200");
    reveal_strlit("201");
    reveal_strlit("404");
    let ra = response_type_spec(a);
    let rb = response_type_spec(b);
    let r2 = rs.drop_last();
    let r1 = r2.drop_last();
    let r0 = r1.drop_last();
    assert(r0 =~= Seq::<(String, ResponsePayload)>::empty());
    assert(r1.last() == rs[0]);
    assert(r2.last() == rs[1]);
    assert(rs.last() == rs[2]);
    assert(is_success_code_spec(rs[0].0@));
    assert(is_success_code_spec(rs[1].0@));
    assert(!is_success_code_spec(rs[2].0@));
    assert(!is_error_code_spec(rs[0].0@));
    assert(!is_error_code_spec(rs[1].0@));
    assert(is_error_code_spec(rs[2].0@));
    assert(success_types_spec(r0) =~= Seq::<Seq<char>>::empty());
    assert(success_types_spec(r1) =~= seq![ra]);
    assert(success_types_spec(r2) =~= seq![ra, ra]);
    assert(success_types_spec(rs) =~= seq![ra, ra]);
    assert(error_types_spec(r0) =~= Seq::<Seq<char>>::empty());
    assert(error_types_spec(r1) =~= Seq::<Seq<char>>::empty());
    assert(error_types_spec(r2) =~= Seq::<Seq<char>>::empty());
    assert(error_types_spec(rs) =~= seq![rb]);
    assert(seq![ra, ra].drop_last() =~= seq![ra]);
    assert(seq![ra].drop_last() =~= Seq::<Seq<char>>::empty());
    assert(dedup_spec(Seq::<Seq<char>>::empty()) =~= Seq::<Seq<char>>::empty());
    assert(!Seq::<Seq<char>>::empty().contains(ra));
    assert(dedup_spec(seq![ra]) =~= seq![ra]);
    assert(seq![ra].contains(ra));
    assert(dedup_spec(seq![ra, ra]) =~= seq![ra]);
    assert(seq![rb].drop_last() =~= Seq::<Seq<char>>::empty());
    assert(!Seq::<Seq<char>>::empty().contains(rb));
    assert(dedup_spec(seq![rb]) =~= seq![rb]);
    assert(join_with_spec(seq![ra], " | "@) == ra);
    assert(join_with_spec(seq![rb], " | "@) == rb);
}

/// Law: a path declaring only a POST operation contributes exactly the
/// mutator lines of that operation and no fetcher lines.
pub proof fn lemma_post_only_path(key: Seq<char>, p: Path, op: Operation)
    requires
        p.get is None,
        p.post == Option::Some(op),
        p.put is None,
        p.delete is None,
        p.patch is None,
    ensures
        path_lines_spec(key, p) == mutator_lines_spec(key, "POST"@, op),
{
    assert(path_lines_spec(key, p) =~~= mutator_lines_spec(key, "POST"@, op));
}

} // verus!
