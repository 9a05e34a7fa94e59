//! The plugin model builder: line parsing of the triple stream and the
//! extraction helpers that read one subject's facts.
//!
//! Input lines have the shape `<subject> <predicate> <object> .`: the
//! subject and predicate run to the first and second space, the object is
//! the remainder less the closing ` .`.  A line that does not fit this
//! shape is a hard parse error reported with the line itself; incomplete
//! entities further up (a port without an index, a plugin without a
//! name) are tolerated with empty defaults instead.

use crate::lv2::DatumV;
use crate::lv2::Lv2Datum;
use crate::strutil::all_digits;
use crate::strutil::digits_val;
use crate::strutil::find_at;
use crate::strutil::find_from;
use crate::strutil::parse_usize;
use crate::strutil::rfind_at;
use crate::strutil::rfind_from;
use crate::strutil::str_eq;
use vstd::prelude::*;
use vstd::string::StrSliceExecFns;
use vstd::string::StringExecFns;

verus! {

/// The object that declares a subject to be a plugin.
pub open spec fn o_plugin_marker() -> Seq<char> {
    "<http://lv2plug.in/ns/lv2core#Plugin>"@
}

pub open spec fn p_doap_name() -> Seq<char> {
    "<http://usefulinc.com/ns/doap#name>"@
}

pub open spec fn p_rdf_type() -> Seq<char> {
    "<http://www.w3.org/1999/02/22-rdf-syntax-ns#type>"@
}

pub open spec fn p_lv2_port() -> Seq<char> {
    "<http://lv2plug.in/ns/lv2core#port>"@
}

pub open spec fn p_lv2_name() -> Seq<char> {
    "<http://lv2plug.in/ns/lv2core#name>"@
}

pub open spec fn p_lv2_symbol() -> Seq<char> {
    "<http://lv2plug.in/ns/lv2core#symbol>"@
}

pub open spec fn p_lv2_index() -> Seq<char> {
    "<http://lv2plug.in/ns/lv2core#index>"@
}

pub open spec fn p_lv2_minimum() -> Seq<char> {
    "<http://lv2plug.in/ns/lv2core#minimum>"@
}

pub open spec fn p_lv2_maximum() -> Seq<char> {
    "<http://lv2plug.in/ns/lv2core#maximum>"@
}

pub open spec fn p_lv2_default() -> Seq<char> {
    "<http://lv2plug.in/ns/lv2core#default>"@
}

pub open spec fn p_port_property() -> Seq<char> {
    "<http://lv2plug.in/ns/lv2core#portProperty>"@
}

pub open spec fn o_logarithmic() -> Seq<char> {
    "<http://lv2plug.in/ns/ext/port-props#logarithmic>"@
}

pub open spec fn p_scale_point() -> Seq<char> {
    "<http://lv2plug.in/ns/lv2core#scalePoint>"@
}

pub open spec fn p_rdfs_label() -> Seq<char> {
    "<http://www.w3.org/2000/01/rdf-schema#label>"@
}

pub open spec fn p_rdf_value() -> Seq<char> {
    "<http://www.w3.org/1999/02/22-rdf-syntax-ns#value>"@
}

/// How one input line reads as a triple; `None` where the line is
/// malformed (fewer than two spaces, or no ` .` terminator).
pub open spec fn parse_line_spec(line: Seq<char>) -> Option<DatumV> {
    let i = find_at(line, 0, ' ');
    if i == line.len() {
        None
    } else {
        let j = find_at(line, i + 1, ' ');
        if j == line.len() {
            None
        } else {
            let rest = line.subrange(j + 1, line.len() as int);
            if rest.len() >= 2 && rest[rest.len() - 2] == ' ' && rest.last() == '.' {
                Some(
                    DatumV {
                        subject: line.subrange(0, i),
                        predicate: line.subrange(i + 1, j),
                        object: rest.subrange(0, rest.len() - 2),
                    },
                )
            } else {
                None
            }
        }
    }
}

/// The non-empty lines, in order: only they carry triples.
pub open spec fn kept_lines(lines: Seq<Seq<char>>) -> Seq<Seq<char>>
    decreases lines.len(),
{
    if lines.len() == 0 {
        Seq::empty()
    } else {
        let pre = kept_lines(lines.drop_last());
        if lines.last().len() > 0 {
            pre.push(lines.last())
        } else {
            pre
        }
    }
}

proof fn lemma_kept_extend(s: Seq<Seq<char>>, i: int)
    requires
        0 <= i < s.len(),
    ensures
        kept_lines(s.subrange(0, i + 1)) == if s[i].len() > 0 {
            kept_lines(s.subrange(0, i)).push(s[i])
        } else {
            kept_lines(s.subrange(0, i))
        },
{
    let t = s.subrange(0, i + 1);
    assert(t.drop_last() =~= s.subrange(0, i));
    assert(t.last() == s[i]);
}

proof fn lemma_kept_prefix(s: Seq<Seq<char>>, i: int)
    requires
        0 <= i <= s.len(),
    ensures
        kept_lines(s.subrange(0, i)).is_prefix_of(kept_lines(s)),
    decreases s.len() - i,
{
    if i == s.len() {
        assert(s.subrange(0, i) =~= s);
    } else {
        lemma_kept_extend(s, i);
        lemma_kept_prefix(s, i + 1);
    }
}

/// Parse one line.  `Err` means the line is malformed.
fn parse_lv2_line(line: &str) -> (r: Result<Lv2Datum, ()>)
    ensures
        match r {
            Ok(d) => parse_line_spec(line@) == Some(d@),
            Err(_) => parse_line_spec(line@) is None,
        },
{
    let len = line.unicode_len();
    let i = find_from(line, 0, ' ');
    if i == len {
        return Err(());
    }
    let j = find_from(line, i + 1, ' ');
    if j == len {
        return Err(());
    }
    // The rest of the line after the second space must be at least two
    // characters and end in " ."
    if len - j - 1 < 2 {
        return Err(());
    }
    if line.get_char(len - 2) != ' ' || line.get_char(len - 1) != '.' {
        proof {
            let rest = line@.subrange(j + 1, len as int);
            assert(rest[rest.len() - 2] == line@[len - 2]);
            assert(rest.last() == line@[len - 1]);
        }
        return Err(());
    }
    let subject = String::from_str(line.substring_char(0, i));
    let predicate = String::from_str(line.substring_char(i + 1, j));
    let object = String::from_str(line.substring_char(j + 1, len - 2));
    proof {
        let rest = line@.subrange(j + 1, len as int);
        assert(rest[rest.len() - 2] == line@[len - 2]);
        assert(rest.last() == line@[len - 1]);
        assert(rest.subrange(0, rest.len() - 2) =~= line@.subrange(j + 1, len - 2));
    }
    Ok(Lv2Datum { subject, predicate, object })
}

/// Turn the input lines into triples.  Empty lines are skipped.  The
/// first malformed line aborts the parse and is returned as the error.
pub fn parse_lv2_data(lines: &Vec<String>) -> (r: Result<Vec<Lv2Datum>, String>)
    ensures
        match r {
            Ok(v) => {
                let kept = kept_lines(lines.deep_view());
                &&& v.deep_view().len() == kept.len()
                &&& forall|k: int|
                    0 <= k < kept.len() ==> parse_line_spec(kept[k]) == Some(
                        #[trigger] v.deep_view()[k],
                    )
            },
            Err(l) => {
                let kept = kept_lines(lines.deep_view());
                exists|k: int|
                    0 <= k < kept.len() && parse_line_spec(#[trigger] kept[k]) is None && l@
                        == kept[k] && forall|j: int| 0 <= j < k ==> parse_line_spec(kept[j]) is Some
            },
        },
{
    let mut out: Vec<Lv2Datum> = Vec::new();
    let n = lines.len();
    let mut i: usize = 0;
    while i < n
        invariant
            i <= n,
            n == lines@.len(),
            out.deep_view().len() == kept_lines(lines.deep_view().subrange(0, i as int)).len(),
            forall|k: int|
                0 <= k < out.deep_view().len() ==> parse_line_spec(
                    kept_lines(lines.deep_view().subrange(0, i as int))[k],
                ) == Some(#[trigger] out.deep_view()[k]),
        decreases n - i,
    {
        let ghost pre_kept = kept_lines(lines.deep_view().subrange(0, i as int));
        proof {
            lemma_kept_extend(lines.deep_view(), i as int);
        }
        let line = &lines[i];
        if line.as_str().unicode_len() > 0 {
            match parse_lv2_line(line.as_str()) {
                Ok(d) => {
                    let ghost old_dv = out.deep_view();
                    let ghost old_vec = out@;
                    let ghost dv = d@;
                    out.push(d);
                    proof {
                        let kn = kept_lines(lines.deep_view().subrange(0, i + 1));
                        assert(kn == pre_kept.push(line@));
                        assert(out@ == old_vec.push(out@[old_vec.len() as int]));
                        assert(out.deep_view().len() == old_dv.len() + 1);
                        assert(out.deep_view()[old_vec.len() as int] == dv);
                        assert forall|k: int| 0 <= k < out.deep_view().len() implies parse_line_spec(
                            kn[k],
                        ) == Some(#[trigger] out.deep_view()[k]) by {
                            if k < old_dv.len() {
                                assert(out@[k] == old_vec[k]);
                                assert(out.deep_view()[k] == old_dv[k]);
                                assert(kn[k] == pre_kept[k]);
                            } else {
                                assert(kn[k] == line@);
                            }
                        }
                    }
                },
                Err(_) => {
                    proof {
                        lemma_kept_prefix(lines.deep_view(), i + 1);
                        let kept = kept_lines(lines.deep_view());
                        let k = pre_kept.len() as int;
                        let pk = pre_kept.push(line@);
                        assert(kept_lines(lines.deep_view().subrange(0, i + 1)) == pk);
                        assert(pk.len() <= kept.len() && pk =~= kept.subrange(0, pk.len() as int));
                        assert(kept.subrange(0, k + 1)[k] == kept[k]);
                        assert(kept[k] == pk[k]);
                        assert(forall|j: int|
                            0 <= j < k ==> kept.subrange(0, k + 1)[j] == #[trigger] kept[j]);
                        assert(forall|j: int| 0 <= j < k ==> #[trigger] kept[j] == pre_kept[j]);
                        assert forall|j: int| 0 <= j < k implies parse_line_spec(
                            #[trigger] kept[j],
                        ) is Some by {
                            assert(parse_line_spec(pre_kept[j]) == Some(out.deep_view()[j]));
                        }
                    }
                    return Err(line.clone());
                },
            }
        }
        i += 1;
    }
    proof {
        assert(lines.deep_view().subrange(0, n as int) =~= lines.deep_view());
    }
    Ok(out)
}

/// The objects of the facts of `subj` with predicate `pred`, in order.
pub open spec fn objs_of(data: Seq<DatumV>, subj: Seq<char>, pred: Seq<char>) -> Seq<Seq<char>>
    decreases data.len(),
{
    if data.len() == 0 {
        Seq::empty()
    } else {
        let pre = objs_of(data.drop_last(), subj, pred);
        let t = data.last();
        if t.subject == subj && t.predicate == pred {
            pre.push(t.object)
        } else {
            pre
        }
    }
}

/// The object of the first fact of `subj` with predicate `pred`.
pub open spec fn first_obj(data: Seq<DatumV>, subj: Seq<char>, pred: Seq<char>) -> Option<
    Seq<char>,
> {
    let objs = objs_of(data, subj, pred);
    if objs.len() > 0 {
        Some(objs[0])
    } else {
        None
    }
}

/// Is the fact `(subj, pred, obj)` present?
pub open spec fn has_fact(
    data: Seq<DatumV>,
    subj: Seq<char>,
    pred: Seq<char>,
    obj: Seq<char>,
) -> bool {
    objs_of(data, subj, pred).contains(obj)
}

proof fn lemma_objs_extend(data: Seq<DatumV>, i: int, subj: Seq<char>, pred: Seq<char>)
    requires
        0 <= i < data.len(),
    ensures
        objs_of(data.subrange(0, i + 1), subj, pred) == if data[i].subject == subj
            && data[i].predicate == pred {
            objs_of(data.subrange(0, i), subj, pred).push(data[i].object)
        } else {
            objs_of(data.subrange(0, i), subj, pred)
        },
{
    let t = data.subrange(0, i + 1);
    assert(t.drop_last() =~= data.subrange(0, i));
    assert(t.last() == data[i]);
}

/// Collect the objects of the facts of `subj` with predicate `pred`.
pub fn collect_objs(data: &Vec<Lv2Datum>, subj: &str, pred: &str) -> (r: Vec<String>)
    ensures
        r.deep_view() == objs_of(data.deep_view(), subj@, pred@),
{
    let mut r: Vec<String> = Vec::new();
    let n = data.len();
    let mut i: usize = 0;
    while i < n
        invariant
            i <= n,
            n == data@.len(),
            r.deep_view() =~= objs_of(data.deep_view().subrange(0, i as int), subj@, pred@),
        decreases n - i,
    {
        proof {
            lemma_objs_extend(data.deep_view(), i as int, subj@, pred@);
        }
        if str_eq(data[i].subject.as_str(), subj) && str_eq(data[i].predicate.as_str(), pred) {
            r.push(data[i].object.clone());
            assert(r.deep_view() =~= objs_of(
                data.deep_view().subrange(0, i + 1),
                subj@,
                pred@,
            ));
        }
        i += 1;
    }
    proof {
        assert(data.deep_view().subrange(0, n as int) =~= data.deep_view());
    }
    r
}

/// Is `obj` among the objects of the facts of `subj` with predicate `pred`?
pub fn has_fact_exec(data: &Vec<Lv2Datum>, subj: &str, pred: &str, obj: &str) -> (r: bool)
    ensures
        r == has_fact(data.deep_view(), subj@, pred@, obj@),
{
    let objs = collect_objs(data, subj, pred);
    let n = objs.len();
    let mut i: usize = 0;
    let ghost spec_objs = objs_of(data.deep_view(), subj@, pred@);
    while i < n
        invariant
            i <= n,
            n == objs@.len(),
            objs.deep_view() == spec_objs,
            spec_objs == objs_of(data.deep_view(), subj@, pred@),
            forall|k: int| 0 <= k < i ==> spec_objs[k] != obj@,
        decreases n - i,
    {
        if str_eq(objs[i].as_str(), obj) {
            proof {
                assert(objs.deep_view()[i as int] == objs@[i as int]@);
                assert(spec_objs[i as int] == obj@);
                assert(spec_objs.contains(obj@));
            }
            return true;
        }
        i += 1;
    }
    proof {
        assert(objs.deep_view().len() == objs@.len());
        assert(!spec_objs.contains(obj@));
    }
    false
}

/// The object of the first fact of `subj` with predicate `pred`, if any.
pub fn first_obj_exec(data: &Vec<Lv2Datum>, subj: &str, pred: &str) -> (r: Option<String>)
    ensures
        match r {
            Some(o) => first_obj(data.deep_view(), subj@, pred@) == Some(o@),
            None => first_obj(data.deep_view(), subj@, pred@) is None,
        },
{
    let mut objs = collect_objs(data, subj, pred);
    if objs.len() > 0 {
        let o = objs.remove(0);
        Some(o)
    } else {
        None
    }
}

/// The facts whose predicate is `filter`, in order.
pub open spec fn with_pred(data: Seq<DatumV>, pred: Seq<char>) -> Seq<DatumV>
    decreases data.len(),
{
    if data.len() == 0 {
        Seq::empty()
    } else {
        let pre = with_pred(data.drop_last(), pred);
        if data.last().predicate == pred {
            pre.push(data.last())
        } else {
            pre
        }
    }
}

proof fn lemma_with_pred_extend(data: Seq<DatumV>, i: int, pred: Seq<char>)
    requires
        0 <= i < data.len(),
    ensures
        with_pred(data.subrange(0, i + 1), pred) == if data[i].predicate == pred {
            with_pred(data.subrange(0, i), pred).push(data[i])
        } else {
            with_pred(data.subrange(0, i), pred)
        },
{
    let t = data.subrange(0, i + 1);
    assert(t.drop_last() =~= data.subrange(0, i));
    assert(t.last() == data[i]);
}

/// Filter the facts by predicate.
pub fn predicate_filter(data: &Vec<Lv2Datum>, filter: &str) -> (r: Vec<Lv2Datum>)
    ensures
        r.deep_view() == with_pred(data.deep_view(), filter@),
{
    let mut r: Vec<Lv2Datum> = Vec::new();
    let n = data.len();
    let mut i: usize = 0;
    while i < n
        invariant
            i <= n,
            n == data@.len(),
            r.deep_view() =~= with_pred(data.deep_view().subrange(0, i as int), filter@),
        decreases n - i,
    {
        proof {
            lemma_with_pred_extend(data.deep_view(), i as int, filter@);
        }
        if str_eq(data[i].predicate.as_str(), filter) {
            r.push(data[i].clone());
            assert(r.deep_view() =~= with_pred(
                data.deep_view().subrange(0, i + 1),
                filter@,
            ));
        }
        i += 1;
    }
    proof {
        assert(data.deep_view().subrange(0, n as int) =~= data.deep_view());
    }
    r
}

/// The text between the first character of `o` (an opening quote) and the
/// next quote; empty where `o` has no such shape.
pub open spec fn strip_quoted(o: Seq<char>) -> Seq<char> {
    if o.len() == 0 {
        Seq::empty()
    } else {
        let q = find_at(o, 1, '"');
        if q < o.len() {
            o.subrange(1, q)
        } else {
            Seq::empty()
        }
    }
}

/// `o` without its first and last character; empty where `o` is shorter
/// than two characters.
pub open spec fn strip_outer(o: Seq<char>) -> Seq<char> {
    if o.len() >= 2 {
        o.subrange(1, o.len() - 1)
    } else {
        Seq::empty()
    }
}

/// For strings starting like `"1.0"^^<htt...`: the first quoted part,
/// `1.0`.  Empty where the string has no closing quote.
pub fn remove_quotes(inp: &str) -> (r: &str)
    ensures
        r@ == strip_quoted(inp@),
{
    let len = inp.unicode_len();
    if len == 0 {
        return inp.substring_char(0, 0);
    }
    let q = find_from(inp, 1, '"');
    if q < len {
        inp.substring_char(1, q)
    } else {
        inp.substring_char(0, 0)
    }
}

/// The number text of an object like `"29"^^<...integer>`: the characters
/// between the opening quote and the quote before `^^`.  Empty where the
/// object has no such shape.
pub open spec fn num_of_object(o: Seq<char>) -> Seq<char> {
    if o.len() == 0 {
        Seq::empty()
    } else {
        let u = find_at(o, 1, '^');
        if u < o.len() && u >= 2 {
            o.subrange(1, u - 1)
        } else {
            Seq::empty()
        }
    }
}

/// The number text of an object like `"29"^^<...integer>`.
pub fn get_number_from_object(object: &str) -> (r: &str)
    ensures
        r@ == num_of_object(object@),
{
    let len = object.unicode_len();
    if len == 0 {
        return object.substring_char(0, 0);
    }
    let u = find_from(object, 1, '^');
    if u < len && u >= 2 {
        object.substring_char(1, u - 1)
    } else {
        object.substring_char(0, 0)
    }
}

/// The number text of a `minimum`/`maximum`/`default` object: the
/// characters between the opening quote and the closing quote.
pub open spec fn cn_num(o: Seq<char>) -> Seq<char> {
    if o.len() == 0 {
        Seq::empty()
    } else {
        let q = find_at(o, 1, '"');
        if q < o.len() {
            o.subrange(1, q)
        } else {
            Seq::empty()
        }
    }
}

/// The schema tag of such an object: the characters between the `#` after
/// the closing quote and the final `>`.
pub open spec fn cn_schema(o: Seq<char>) -> Seq<char> {
    if o.len() == 0 {
        Seq::empty()
    } else {
        let q = find_at(o, 1, '"');
        let h = find_at(o, q + 1, '#');
        if h < o.len() && h + 1 <= o.len() - 1 {
            o.subrange(h + 1, o.len() - 1)
        } else {
            Seq::empty()
        }
    }
}

/// Take a literal object such as `"0.5"^^<http://...#decimal>` apart into
/// its number text and its schema tag: `("0.5", "decimal")`.  Either part
/// is empty where the object has no such shape.
pub fn control_number(object: &str) -> (r: (String, String))
    ensures
        r.0@ == cn_num(object@),
        r.1@ == cn_schema(object@),
{
    let len = object.unicode_len();
    if len == 0 {
        return (String::new(), String::new());
    }
    let q = find_from(object, 1, '"');
    let num = if q < len {
        String::from_str(object.substring_char(1, q))
    } else {
        String::new()
    };
    let h = if q < len {
        find_from(object, q + 1, '#')
    } else {
        len
    };
    proof {
        if q >= len {
            assert(q == len);
            assert(find_at(object@, q + 1, '#') == len);
        }
    }
    let schema = if h < len && h + 1 <= len - 1 {
        String::from_str(object.substring_char(h + 1, len - 1))
    } else {
        String::new()
    };
    (num, schema)
}

/// The concatenation of the quote-stripped texts of `objs`.
pub open spec fn concat_quoted(objs: Seq<Seq<char>>) -> Seq<char>
    decreases objs.len(),
{
    if objs.len() == 0 {
        Seq::empty()
    } else {
        concat_quoted(objs.drop_last()) + strip_quoted(objs.last())
    }
}

/// The concatenation of the texts of `objs` with first and last character
/// removed.
pub open spec fn concat_outer(objs: Seq<Seq<char>>) -> Seq<char>
    decreases objs.len(),
{
    if objs.len() == 0 {
        Seq::empty()
    } else {
        concat_outer(objs.drop_last()) + strip_outer(objs.last())
    }
}

proof fn lemma_concat_quoted_extend(objs: Seq<Seq<char>>, i: int)
    requires
        0 <= i < objs.len(),
    ensures
        concat_quoted(objs.subrange(0, i + 1)) == concat_quoted(objs.subrange(0, i))
            + strip_quoted(objs[i]),
{
    let t = objs.subrange(0, i + 1);
    assert(t.drop_last() =~= objs.subrange(0, i));
    assert(t.last() == objs[i]);
}

proof fn lemma_concat_outer_extend(objs: Seq<Seq<char>>, i: int)
    requires
        0 <= i < objs.len(),
    ensures
        concat_outer(objs.subrange(0, i + 1)) == concat_outer(objs.subrange(0, i)) + strip_outer(
            objs[i],
        ),
{
    let t = objs.subrange(0, i + 1);
    assert(t.drop_last() =~= objs.subrange(0, i));
    assert(t.last() == objs[i]);
}

/// Concatenate the quote-stripped texts of `objs`.
fn concat_quoted_exec(objs: &Vec<String>) -> (r: String)
    ensures
        r@ == concat_quoted(objs.deep_view()),
{
    let mut r = String::new();
    let n = objs.len();
    let mut i: usize = 0;
    while i < n
        invariant
            i <= n,
            n == objs@.len(),
            r@ =~= concat_quoted(objs.deep_view().subrange(0, i as int)),
        decreases n - i,
    {
        proof {
            lemma_concat_quoted_extend(objs.deep_view(), i as int);
        }
        r.append(remove_quotes(objs[i].as_str()));
        i += 1;
    }
    proof {
        assert(objs.deep_view().subrange(0, n as int) =~= objs.deep_view());
    }
    r
}

/// Strip the first and last character of `s`.
fn strip_outer_exec(s: &str) -> (r: &str)
    ensures
        r@ == strip_outer(s@),
{
    let len = s.unicode_len();
    if len >= 2 {
        s.substring_char(1, len - 1)
    } else {
        s.substring_char(0, 0)
    }
}

/// Concatenate the texts of `objs` with first and last character removed.
fn concat_outer_exec(objs: &Vec<String>) -> (r: String)
    ensures
        r@ == concat_outer(objs.deep_view()),
{
    let mut r = String::new();
    let n = objs.len();
    let mut i: usize = 0;
    while i < n
        invariant
            i <= n,
            n == objs@.len(),
            r@ =~= concat_outer(objs.deep_view().subrange(0, i as int)),
        decreases n - i,
    {
        proof {
            lemma_concat_outer_extend(objs.deep_view(), i as int);
        }
        r.append(strip_outer_exec(objs[i].as_str()));
        i += 1;
    }
    proof {
        assert(objs.deep_view().subrange(0, n as int) =~= objs.deep_view());
    }
    r
}

/// The index value one `index` fact contributes: the quoted number text
/// parsed as a decimal; zero where the text is not a number that fits the
/// machine word.
pub open spec fn index_fact_val(o: Seq<char>) -> nat {
    let num = strip_quoted(o);
    if num.len() > 0 && all_digits(num) && digits_val(num) <= usize::MAX {
        digits_val(num)
    } else {
        0
    }
}

/// The sum of the index values of `objs`.
pub open spec fn index_total(objs: Seq<Seq<char>>) -> nat
    decreases objs.len(),
{
    if objs.len() == 0 {
        0
    } else {
        index_total(objs.drop_last()) + index_fact_val(objs.last())
    }
}

/// `n` clamped to the machine word.
pub open spec fn clamp_usize(n: nat) -> usize {
    if n > usize::MAX {
        usize::MAX as usize
    } else {
        n as usize
    }
}

proof fn lemma_index_total_extend(objs: Seq<Seq<char>>, i: int)
    requires
        0 <= i < objs.len(),
    ensures
        index_total(objs.subrange(0, i + 1)) == index_total(objs.subrange(0, i)) + index_fact_val(
            objs[i],
        ),
{
    let t = objs.subrange(0, i + 1);
    assert(t.drop_last() =~= objs.subrange(0, i));
    assert(t.last() == objs[i]);
}

/// Sum the index values of `objs`, saturating at the machine word.
fn index_total_exec(objs: &Vec<String>) -> (r: usize)
    ensures
        r == clamp_usize(index_total(objs.deep_view())),
{
    let mut r: usize = 0;
    let n = objs.len();
    let mut i: usize = 0;
    while i < n
        invariant
            i <= n,
            n == objs@.len(),
            r == clamp_usize(index_total(objs.deep_view().subrange(0, i as int))),
        decreases n - i,
    {
        proof {
            lemma_index_total_extend(objs.deep_view(), i as int);
        }
        let num = remove_quotes(objs[i].as_str());
        match parse_usize(num) {
            Some(v) => {
                if r > usize::MAX - v {
                    r = usize::MAX;
                } else {
                    r = r + v;
                }
            },
            None => {},
        }
        i += 1;
    }
    proof {
        assert(objs.deep_view().subrange(0, n as int) =~= objs.deep_view());
    }
    r
}

/// The text between the `#` and the final `>` of a URI-like object;
/// empty where the object has no such shape.
pub open spec fn local_name(o: Seq<char>) -> Seq<char> {
    let i = find_at(o, 0, '#');
    let j = rfind_at(o, '>');
    if i < o.len() && i + 1 <= j {
        o.subrange(i + 1, j)
    } else {
        Seq::empty()
    }
}

/// The text between the `#` and the final `>` of a URI-like object.
fn local_name_exec(o: &str) -> (r: &str)
    ensures
        r@ == local_name(o@),
{
    let len = o.unicode_len();
    let i = find_from(o, 0, '#');
    let j = rfind_from(o, '>');
    if i < len && j < len && i + 1 <= j {
        o.substring_char(i + 1, j)
    } else {
        proof {
            if j == len {
                assert(rfind_at(o@, '>') == -1);
            }
        }
        o.substring_char(0, 0)
    }
}

/// Number text and schema tag of the first `minimum` fact; empty where
/// there is none.
pub open spec fn min_pair_of(data: Seq<DatumV>, subj: Seq<char>) -> (Seq<char>, Seq<char>) {
    match first_obj(data, subj, p_lv2_minimum()) {
        Some(o) => (cn_num(o), cn_schema(o)),
        None => (Seq::empty(), Seq::empty()),
    }
}

/// Number text and schema tag of the first `maximum` fact.
pub open spec fn max_pair_of(data: Seq<DatumV>, subj: Seq<char>) -> (Seq<char>, Seq<char>) {
    match first_obj(data, subj, p_lv2_maximum()) {
        Some(o) => (cn_num(o), cn_schema(o)),
        None => (Seq::empty(), Seq::empty()),
    }
}

/// Number text and schema tag of the first `default` fact; the `minimum`
/// pair where there is none.
pub open spec fn def_pair_of(data: Seq<DatumV>, subj: Seq<char>) -> (Seq<char>, Seq<char>) {
    match first_obj(data, subj, p_lv2_default()) {
        Some(o) => (cn_num(o), cn_schema(o)),
        None => min_pair_of(data, subj),
    }
}

/// Does the port declare logarithmic scaling?
pub open spec fn log_of(data: Seq<DatumV>, subj: Seq<char>) -> bool {
    has_fact(data, subj, p_port_property(), o_logarithmic())
}

/// Majority vote over the three schema tags: any two that agree win;
/// `double` where all three differ.
pub open spec fn majority_tag(mn: Seq<char>, mx: Seq<char>, df: Seq<char>) -> Seq<char> {
    if mx == mn || mx == df {
        mx
    } else if mn == df {
        mn
    } else {
        "double"@
    }
}

/// The numeric kind a schema tag names; `Double` for anything
/// unrecognized.
pub open spec fn tag_kind(tag: Seq<char>) -> crate::port::ContinuousType {
    if tag == "integer"@ {
        crate::port::ContinuousType::Integer
    } else if tag == "decimal"@ {
        crate::port::ContinuousType::Decimal
    } else {
        crate::port::ContinuousType::Double
    }
}

/// The numeric kind of a port, by majority vote over its three tags.
pub open spec fn kind_of(data: Seq<DatumV>, subj: Seq<char>) -> crate::port::ContinuousType {
    tag_kind(
        majority_tag(
            min_pair_of(data, subj).1,
            max_pair_of(data, subj).1,
            def_pair_of(data, subj).1,
        ),
    )
}

/// The (label, value) pairs contributed by the scale points `pts`: one
/// pair for each point that has both a label fact and a value fact.
pub open spec fn pairs_from_points(data: Seq<DatumV>, pts: Seq<Seq<char>>) -> Seq<
    (Seq<char>, Seq<char>),
>
    decreases pts.len(),
{
    if pts.len() == 0 {
        Seq::empty()
    } else {
        let pre = pairs_from_points(data, pts.drop_last());
        let sp = pts.last();
        match (first_obj(data, sp, p_rdfs_label()), first_obj(data, sp, p_rdf_value())) {
            (Some(lo), Some(vo)) => pre.push((strip_quoted(lo), num_of_object(vo))),
            _ => pre,
        }
    }
}

/// The (label, value) pairs of the port's scale points.
pub open spec fn scale_pairs_of(data: Seq<DatumV>, subj: Seq<char>) -> Seq<(Seq<char>, Seq<char>)> {
    pairs_from_points(data, objs_of(data, subj, p_scale_point()))
}

proof fn lemma_pairs_extend(data: Seq<DatumV>, pts: Seq<Seq<char>>, i: int)
    requires
        0 <= i < pts.len(),
    ensures
        pairs_from_points(data, pts.subrange(0, i + 1)) == match (
            first_obj(data, pts[i], p_rdfs_label()),
            first_obj(data, pts[i], p_rdf_value()),
        ) {
            (Some(lo), Some(vo)) => pairs_from_points(data, pts.subrange(0, i)).push(
                (strip_quoted(lo), num_of_object(vo)),
            ),
            _ => pairs_from_points(data, pts.subrange(0, i)),
        },
{
    let t = pts.subrange(0, i + 1);
    assert(t.drop_last() =~= pts.subrange(0, i));
    assert(t.last() == pts[i]);
}

/// The numeric kind a schema tag names.
fn kind_from_tag(tag: &str) -> (r: crate::port::ContinuousType)
    ensures
        r == tag_kind(tag@),
{
    if str_eq(tag, "integer") {
        crate::port::ContinuousType::Integer
    } else if str_eq(tag, "decimal") {
        crate::port::ContinuousType::Decimal
    } else {
        crate::port::ContinuousType::Double
    }
}

/// For a control port, pull the important data out of its facts: minimum,
/// maximum and default number texts, logarithmic scaling, the scale
/// points if any, and the reconciled numeric kind.
pub fn get_mmdls(data: &Vec<Lv2Datum>, subj: &str) -> (r: (
    String,
    String,
    String,
    bool,
    Option<crate::port::ScaleDescription>,
    crate::port::ContinuousType,
))
    ensures
        r.0@ == min_pair_of(data.deep_view(), subj@).0,
        r.1@ == max_pair_of(data.deep_view(), subj@).0,
        r.2@ == def_pair_of(data.deep_view(), subj@).0,
        r.3 == log_of(data.deep_view(), subj@),
        match r.4 {
            Some(sd) => sd.wf() && sd.labels@.len() > 0 && sd.pairs() == scale_pairs_of(
                data.deep_view(),
                subj@,
            ),
            None => scale_pairs_of(data.deep_view(), subj@).len() == 0,
        },
        r.5 == kind_of(data.deep_view(), subj@),
{
    let min_p = match first_obj_exec(data, subj, "<http://lv2plug.in/ns/lv2core#minimum>") {
        Some(o) => control_number(o.as_str()),
        None => (String::new(), String::new()),
    };
    let max_p = match first_obj_exec(data, subj, "<http://lv2plug.in/ns/lv2core#maximum>") {
        Some(o) => control_number(o.as_str()),
        None => (String::new(), String::new()),
    };
    let def_p = match first_obj_exec(data, subj, "<http://lv2plug.in/ns/lv2core#default>") {
        Some(o) => control_number(o.as_str()),
        None => (min_p.0.clone(), min_p.1.clone()),
    };
    let logarithmic = has_fact_exec(
        data,
        subj,
        "<http://lv2plug.in/ns/lv2core#portProperty>",
        "<http://lv2plug.in/ns/ext/port-props#logarithmic>",
    );

    let pts = collect_objs(data, subj, "<http://lv2plug.in/ns/lv2core#scalePoint>");
    let ghost dv = data.deep_view();
    let ghost ptsv = pts.deep_view();
    let mut labels: Vec<String> = Vec::new();
    let mut values: Vec<String> = Vec::new();
    let n = pts.len();
    let mut i: usize = 0;
    while i < n
        invariant
            i <= n,
            n == pts@.len(),
            dv == data.deep_view(),
            ptsv == pts.deep_view(),
            ptsv == objs_of(dv, subj@, p_scale_point()),
            labels@.len() == values@.len(),
            labels@.len() == pairs_from_points(dv, ptsv.subrange(0, i as int)).len(),
            forall|k: int|
                0 <= k < labels@.len() ==> #[trigger] pairs_from_points(
                    dv,
                    ptsv.subrange(0, i as int),
                )[k] == (labels.deep_view()[k], values.deep_view()[k]),
        decreases n - i,
    {
        let ghost pre_pairs = pairs_from_points(dv, ptsv.subrange(0, i as int));
        proof {
            lemma_pairs_extend(dv, ptsv, i as int);
        }
        let sp = &pts[i];
        let lo = first_obj_exec(data, sp.as_str(), "<http://www.w3.org/2000/01/rdf-schema#label>");
        let vo = first_obj_exec(
            data,
            sp.as_str(),
            "<http://www.w3.org/1999/02/22-rdf-syntax-ns#value>",
        );
        match (lo, vo) {
            (Some(l), Some(v)) => {
                let ghost old_labels = labels.deep_view();
                let ghost old_values = values.deep_view();
                labels.push(String::from_str(remove_quotes(l.as_str())));
                values.push(String::from_str(get_number_from_object(v.as_str())));
                proof {
                    let np = pairs_from_points(dv, ptsv.subrange(0, i + 1));
                    assert(np == pre_pairs.push(
                        (
                            strip_quoted(first_obj(dv, ptsv[i as int], p_rdfs_label()).unwrap()),
                            num_of_object(first_obj(dv, ptsv[i as int], p_rdf_value()).unwrap()),
                        ),
                    ));
                    assert forall|k: int| 0 <= k < labels@.len() implies #[trigger] np[k] == (
                        labels.deep_view()[k],
                        values.deep_view()[k],
                    ) by {
                        if k < old_labels.len() {
                            assert(labels.deep_view()[k] == old_labels[k]);
                            assert(values.deep_view()[k] == old_values[k]);
                            assert(np[k] == pre_pairs[k]);
                        }
                    }
                }
            },
            _ => {},
        }
        i += 1;
    }
    proof {
        assert(ptsv.subrange(0, n as int) =~= ptsv);
    }
    let scale: Option<crate::port::ScaleDescription> = if labels.len() > 0 {
        let sd = crate::port::ScaleDescription { labels, values };
        proof {
            assert(sd.pairs() =~= scale_pairs_of(dv, subj@));
        }
        Some(sd)
    } else {
        None
    };

    let two_agree_max = str_eq(max_p.1.as_str(), min_p.1.as_str()) || str_eq(
        max_p.1.as_str(),
        def_p.1.as_str(),
    );
    let min_def_agree = str_eq(min_p.1.as_str(), def_p.1.as_str());
    let kind = if two_agree_max {
        kind_from_tag(max_p.1.as_str())
    } else if min_def_agree {
        kind_from_tag(min_p.1.as_str())
    } else {
        kind_from_tag("double")
    };
    (min_p.0, max_p.0, def_p.0, logarithmic, scale, kind)
}

/// How a control port classifies: a scale when it has scale points, a
/// continuous range otherwise.
pub open spec fn classify_spec(data: Seq<DatumV>, subj: Seq<char>) -> crate::port::CppV {
    let pairs = scale_pairs_of(data, subj);
    if pairs.len() > 0 {
        crate::port::CppV::Scale(crate::port::ScaleV { labels_values: pairs, value: None })
    } else {
        crate::port::CppV::Continuous(
            crate::port::ContinuousV {
                kind: kind_of(data, subj),
                max: max_pair_of(data, subj).0,
                min: min_pair_of(data, subj).0,
                default: def_pair_of(data, subj).0,
                logarithmic: log_of(data, subj),
                value: None,
            },
        )
    }
}

/// Classify one control port from its facts (and, for its scale points,
/// the full fact list): a scale when one or more valid label/value pairs
/// are found, otherwise a continuous range.  The result depends on the
/// facts alone, so classifying the same facts twice gives the same
/// classification.
pub fn classify_control_port(data: &Vec<Lv2Datum>, port_subj: &str) -> (r:
    crate::port::ControlPortProperties)
    ensures
        r@ == classify_spec(data.deep_view(), port_subj@),
{
    let (mn, mx, df, lg, sc, kd) = get_mmdls(data, port_subj);
    let r = crate::port::ControlPortProperties::new(mn, mx, df, lg, sc, kd);
    proof {
        assert(r@ == classify_spec(data.deep_view(), port_subj@));
    }
    r
}

/// A port classified as a scale always carries at least one label/value
/// pair, and a continuous port's numeric kind is one of the three closed
/// values: scale points override the continuous reading only when a valid
/// pair exists.
pub proof fn lemma_classification_invariant(data: Seq<DatumV>, subj: Seq<char>)
    ensures
        match classify_spec(data, subj) {
            crate::port::CppV::Scale(sc) => sc.labels_values.len() > 0,
            crate::port::CppV::Continuous(cc) => cc.kind is Integer || cc.kind is Decimal
                || cc.kind is Double,
        },
{
}

/// The port type one `type` fact contributes.
pub open spec fn port_type_of(data: Seq<DatumV>, subj: Seq<char>, o: Seq<char>) -> crate::port::PortTypeV {
    let n = local_name(o);
    if n == "InputPort"@ {
        crate::port::PortTypeV::Input
    } else if n == "ControlPort"@ {
        crate::port::PortTypeV::Control(classify_spec(data, subj))
    } else if n == "OutputPort"@ {
        crate::port::PortTypeV::Output
    } else if n == "AudioPort"@ {
        crate::port::PortTypeV::Audio
    } else if n == "AtomPort"@ {
        crate::port::PortTypeV::AtomPort
    } else {
        crate::port::PortTypeV::Other(n)
    }
}

/// The port built from the facts of `subj`.
pub open spec fn port_spec(data: Seq<DatumV>, subj: Seq<char>) -> crate::port::PortV {
    crate::port::PortV {
        name: concat_quoted(objs_of(data, subj, p_lv2_name())),
        symbol: concat_quoted(objs_of(data, subj, p_lv2_symbol())),
        types: objs_of(data, subj, p_rdf_type()).map_values(|o| port_type_of(data, subj, o)),
        index: clamp_usize(index_total(objs_of(data, subj, p_lv2_index()))),
    }
}

/// Build one port from the facts of its subject.
pub fn build_port(data: &Vec<Lv2Datum>, subj: &str) -> (r: crate::port::Port)
    ensures
        r@ == port_spec(data.deep_view(), subj@),
{
    let ghost dv = data.deep_view();
    let names = collect_objs(data, subj, "<http://lv2plug.in/ns/lv2core#name>");
    let name = concat_quoted_exec(&names);
    let symbols = collect_objs(data, subj, "<http://lv2plug.in/ns/lv2core#symbol>");
    let symbol = concat_quoted_exec(&symbols);
    let idxs = collect_objs(data, subj, "<http://lv2plug.in/ns/lv2core#index>");
    let index = index_total_exec(&idxs);
    let tobjs = collect_objs(data, subj, "<http://www.w3.org/1999/02/22-rdf-syntax-ns#type>");
    let ghost tv = tobjs.deep_view();
    let mut types: Vec<crate::port::PortType> = Vec::new();
    let n = tobjs.len();
    let mut i: usize = 0;
    while i < n
        invariant
            i <= n,
            n == tobjs@.len(),
            dv == data.deep_view(),
            tv == tobjs.deep_view(),
            tv == objs_of(dv, subj@, p_rdf_type()),
            types@.len() == i,
            forall|k: int|
                0 <= k < i ==> (#[trigger] types@[k])@ == port_type_of(dv, subj@, tv[k]),
        decreases n - i,
    {
        let ln = local_name_exec(tobjs[i].as_str());
        if str_eq(ln, "InputPort") {
            types.push(crate::port::PortType::Input);
        } else if str_eq(ln, "ControlPort") {
            let (mn, mx, df, lg, sc, kd) = get_mmdls(data, subj);
            let cpp = crate::port::ControlPortProperties::new(mn, mx, df, lg, sc, kd);
            proof {
                assert(cpp@ == classify_spec(dv, subj@));
            }
            types.push(crate::port::PortType::Control(cpp));
        } else if str_eq(ln, "OutputPort") {
            types.push(crate::port::PortType::Output);
        } else if str_eq(ln, "AudioPort") {
            types.push(crate::port::PortType::Audio);
        } else if str_eq(ln, "AtomPort") {
            types.push(crate::port::PortType::AtomPort);
        } else {
            types.push(crate::port::PortType::Other(String::from_str(ln)));
        }
        i += 1;
    }
    let r = crate::port::Port { name, symbol, types, index };
    proof {
        assert(r@.types =~= port_spec(dv, subj@).types);
    }
    r
}

/// The plugin category a `type` fact's local name maps to; unknown names
/// are preserved in `Other`.
pub open spec fn lv2_type_of_name(n: Seq<char>) -> crate::lv2::Lv2TypeV {
    if n == "Plugin"@ {
        crate::lv2::Lv2TypeV::Plugin
    } else if n == "ReverbPlugin"@ {
        crate::lv2::Lv2TypeV::ReverbPlugin
    } else if n == "ChorusPlugin"@ {
        crate::lv2::Lv2TypeV::ChorusPlugin
    } else if n == "FlangerPlugin"@ {
        crate::lv2::Lv2TypeV::FlangerPlugin
    } else if n == "PhaserPlugin"@ {
        crate::lv2::Lv2TypeV::PhaserPlugin
    } else if n == "WaveshaperPlugin"@ {
        crate::lv2::Lv2TypeV::WaveshaperPlugin
    } else if n == "FunctionalProperty"@ {
        crate::lv2::Lv2TypeV::FunctionalProperty
    } else if n == "SpectralPlugin"@ {
        crate::lv2::Lv2TypeV::SpectralPlugin
    } else if n == "LimiterPlugin"@ {
        crate::lv2::Lv2TypeV::LimiterPlugin
    } else if n == "AnalyserPlugin"@ {
        crate::lv2::Lv2TypeV::AnalyserPlugnin
    } else if n == "PitchPlugin"@ {
        crate::lv2::Lv2TypeV::PitchPlugin
    } else if n == "ObjectProperty"@ {
        crate::lv2::Lv2TypeV::ObjectProperty
    } else if n == "Property"@ {
        crate::lv2::Lv2TypeV::Property
    } else if n == "SpatialPlugin"@ {
        crate::lv2::Lv2TypeV::SpatialPlugin
    } else if n == "UtilityPlugin"@ {
        crate::lv2::Lv2TypeV::UtilityPlugin
    } else if n == "AmplifierPlugin"@ {
        crate::lv2::Lv2TypeV::AmplifierPlugin
    } else if n == "ExpanderPlugin"@ {
        crate::lv2::Lv2TypeV::ExpanderPlugin
    } else if n == "CompressorPlugin"@ {
        crate::lv2::Lv2TypeV::CompressorPlugin
    } else if n == "EQPlugin"@ {
        crate::lv2::Lv2TypeV::EQPlugin
    } else if n == "ModulatorPlugin"@ {
        crate::lv2::Lv2TypeV::ModulatorPlugin
    } else if n == "InstrumentPlugin"@ {
        crate::lv2::Lv2TypeV::InstrumentPlugin
    } else if n == "SimulatorPlugin"@ {
        crate::lv2::Lv2TypeV::SimulatorPlugin
    } else if n == "FilterPlugin"@ {
        crate::lv2::Lv2TypeV::FilterPlugin
    } else if n == "DelayPlugin"@ {
        crate::lv2::Lv2TypeV::DelayPlugin
    } else if n == "DistortionPlugin"@ {
        crate::lv2::Lv2TypeV::DistortionPlugin
    } else if n == "Class"@ {
        crate::lv2::Lv2TypeV::Class
    } else if n == "EnvelopePlugin"@ {
        crate::lv2::Lv2TypeV::EnvelopePlugin
    } else if n == "Project"@ {
        crate::lv2::Lv2TypeV::Project
    } else {
        crate::lv2::Lv2TypeV::Other(n)
    }
}

/// The plugin category a `type` fact's local name maps to.
fn lv2_type_from_name(n: &str) -> (r: crate::lv2::Lv2Type)
    ensures
        r@ == lv2_type_of_name(n@),
{
    if str_eq(n, "Plugin") {
        crate::lv2::Lv2Type::Plugin
    } else if str_eq(n, "ReverbPlugin") {
        crate::lv2::Lv2Type::ReverbPlugin
    } else if str_eq(n, "ChorusPlugin") {
        crate::lv2::Lv2Type::ChorusPlugin
    } else if str_eq(n, "FlangerPlugin") {
        crate::lv2::Lv2Type::FlangerPlugin
    } else if str_eq(n, "PhaserPlugin") {
        crate::lv2::Lv2Type::PhaserPlugin
    } else if str_eq(n, "WaveshaperPlugin") {
        crate::lv2::Lv2Type::WaveshaperPlugin
    } else if str_eq(n, "FunctionalProperty") {
        crate::lv2::Lv2Type::FunctionalProperty
    } else if str_eq(n, "SpectralPlugin") {
        crate::lv2::Lv2Type::SpectralPlugin
    } else if str_eq(n, "LimiterPlugin") {
        crate::lv2::Lv2Type::LimiterPlugin
    } else if str_eq(n, "AnalyserPlugin") {
        crate::lv2::Lv2Type::AnalyserPlugnin
    } else if str_eq(n, "PitchPlugin") {
        crate::lv2::Lv2Type::PitchPlugin
    } else if str_eq(n, "ObjectProperty") {
        crate::lv2::Lv2Type::ObjectProperty
    } else if str_eq(n, "Property") {
        crate::lv2::Lv2Type::Property
    } else if str_eq(n, "SpatialPlugin") {
        crate::lv2::Lv2Type::SpatialPlugin
    } else if str_eq(n, "UtilityPlugin") {
        crate::lv2::Lv2Type::UtilityPlugin
    } else if str_eq(n, "AmplifierPlugin") {
        crate::lv2::Lv2Type::AmplifierPlugin
    } else if str_eq(n, "ExpanderPlugin") {
        crate::lv2::Lv2Type::ExpanderPlugin
    } else if str_eq(n, "CompressorPlugin") {
        crate::lv2::Lv2Type::CompressorPlugin
    } else if str_eq(n, "EQPlugin") {
        crate::lv2::Lv2Type::EQPlugin
    } else if str_eq(n, "ModulatorPlugin") {
        crate::lv2::Lv2Type::ModulatorPlugin
    } else if str_eq(n, "InstrumentPlugin") {
        crate::lv2::Lv2Type::InstrumentPlugin
    } else if str_eq(n, "SimulatorPlugin") {
        crate::lv2::Lv2Type::SimulatorPlugin
    } else if str_eq(n, "FilterPlugin") {
        crate::lv2::Lv2Type::FilterPlugin
    } else if str_eq(n, "DelayPlugin") {
        crate::lv2::Lv2Type::DelayPlugin
    } else if str_eq(n, "DistortionPlugin") {
        crate::lv2::Lv2Type::DistortionPlugin
    } else if str_eq(n, "Class") {
        crate::lv2::Lv2Type::Class
    } else if str_eq(n, "EnvelopePlugin") {
        crate::lv2::Lv2Type::EnvelopePlugin
    } else if str_eq(n, "Project") {
        crate::lv2::Lv2Type::Project
    } else {
        crate::lv2::Lv2Type::Other(String::from_str(n))
    }
}

/// `s` with later repeats removed: each text keeps its first occurrence.
pub open spec fn dedup_seqs(s: Seq<Seq<char>>) -> Seq<Seq<char>>
    decreases s.len(),
{
    if s.len() == 0 {
        Seq::empty()
    } else {
        let pre = dedup_seqs(s.drop_last());
        if pre.contains(s.last()) {
            pre
        } else {
            pre.push(s.last())
        }
    }
}

proof fn lemma_dedup_extend(s: Seq<Seq<char>>, i: int)
    requires
        0 <= i < s.len(),
    ensures
        dedup_seqs(s.subrange(0, i + 1)) == if dedup_seqs(s.subrange(0, i)).contains(s[i]) {
            dedup_seqs(s.subrange(0, i))
        } else {
            dedup_seqs(s.subrange(0, i)).push(s[i])
        },
{
    let t = s.subrange(0, i + 1);
    assert(t.drop_last() =~= s.subrange(0, i));
    assert(t.last() == s[i]);
}

/// Is `s` among the strings of `v`?
pub(crate) fn contains_string(v: &Vec<String>, s: &str) -> (r: bool)
    ensures
        r == v.deep_view().contains(s@),
{
    let n = v.len();
    let mut i: usize = 0;
    while i < n
        invariant
            i <= n,
            n == v@.len(),
            forall|k: int| 0 <= k < i ==> v.deep_view()[k] != s@,
        decreases n - i,
    {
        if str_eq(v[i].as_str(), s) {
            proof {
                assert(v.deep_view()[i as int] == s@);
                assert(v.deep_view().contains(s@));
            }
            return true;
        }
        i += 1;
    }
    proof {
        assert(v.deep_view().len() == v@.len());
        assert(!v.deep_view().contains(s@));
    }
    false
}

/// Remove later repeats, keeping first occurrences.
fn dedup_strings(objs: &Vec<String>) -> (r: Vec<String>)
    ensures
        r.deep_view() == dedup_seqs(objs.deep_view()),
{
    let mut r: Vec<String> = Vec::new();
    let n = objs.len();
    let mut i: usize = 0;
    while i < n
        invariant
            i <= n,
            n == objs@.len(),
            r.deep_view() =~= dedup_seqs(objs.deep_view().subrange(0, i as int)),
        decreases n - i,
    {
        proof {
            lemma_dedup_extend(objs.deep_view(), i as int);
        }
        if !contains_string(&r, objs[i].as_str()) {
            r.push(objs[i].clone());
            assert(r.deep_view() =~= dedup_seqs(objs.deep_view().subrange(0, i + 1)));
        }
        i += 1;
    }
    proof {
        assert(objs.deep_view().subrange(0, n as int) =~= objs.deep_view());
    }
    r
}

/// The local names of the `type` facts of `subj`.
pub open spec fn type_names_of(data: Seq<DatumV>, subj: Seq<char>) -> Seq<Seq<char>> {
    objs_of(data, subj, p_rdf_type()).map_values(|o: Seq<char>| local_name(o))
}

/// The plugin built from the facts of `subj`: categories without repeats
/// in first-occurrence order, ports in fact order, display name from the
/// `doap` name facts, url from the subject less its angle brackets.
pub open spec fn plugin_spec(data: Seq<DatumV>, subj: Seq<char>) -> crate::lv2::Lv2V {
    crate::lv2::Lv2V {
        types: dedup_seqs(type_names_of(data, subj)).map_values(
            |n: Seq<char>| lv2_type_of_name(n),
        ),
        ports: objs_of(data, subj, p_lv2_port()).map_values(|p: Seq<char>| port_spec(data, p)),
        name: concat_outer(objs_of(data, subj, p_doap_name())),
        url: strip_outer(subj),
    }
}

/// Build one plugin from the facts of its subject.
pub fn build_lv2(data: &Vec<Lv2Datum>, subj: &str) -> (r: crate::lv2::Lv2)
    ensures
        r@ == plugin_spec(data.deep_view(), subj@),
{
    let ghost dv = data.deep_view();
    let name_objs = collect_objs(data, subj, "<http://usefulinc.com/ns/doap#name>");
    let name = concat_outer_exec(&name_objs);
    let url = String::from_str(strip_outer_exec(subj));

    // Categories: local names of the type facts, first occurrences only.
    let tobjs = collect_objs(data, subj, "<http://www.w3.org/1999/02/22-rdf-syntax-ns#type>");
    let ghost tv = tobjs.deep_view();
    let mut tnames: Vec<String> = Vec::new();
    let n = tobjs.len();
    let mut i: usize = 0;
    while i < n
        invariant
            i <= n,
            n == tobjs@.len(),
            tv == tobjs.deep_view(),
            tnames@.len() == i,
            forall|k: int| 0 <= k < i ==> (#[trigger] tnames@[k])@ == local_name(tv[k]),
        decreases n - i,
    {
        tnames.push(String::from_str(local_name_exec(tobjs[i].as_str())));
        i += 1;
    }
    proof {
        assert(tnames.deep_view() =~= type_names_of(dv, subj@));
    }
    let uniq = dedup_strings(&tnames);
    let ghost uv = uniq.deep_view();
    let mut types: Vec<crate::lv2::Lv2Type> = Vec::new();
    let m = uniq.len();
    let mut i: usize = 0;
    while i < m
        invariant
            i <= m,
            m == uniq@.len(),
            uv == uniq.deep_view(),
            types@.len() == i,
            forall|k: int|
                0 <= k < i ==> (#[trigger] types@[k])@ == lv2_type_of_name(uv[k]),
        decreases m - i,
    {
        types.push(lv2_type_from_name(uniq[i].as_str()));
        i += 1;
    }

    // Ports, one per `port` fact, in order.
    let pobjs = collect_objs(data, subj, "<http://lv2plug.in/ns/lv2core#port>");
    let ghost pv = pobjs.deep_view();
    let mut ports: Vec<crate::port::Port> = Vec::new();
    let np = pobjs.len();
    let mut i: usize = 0;
    while i < np
        invariant
            i <= np,
            np == pobjs@.len(),
            dv == data.deep_view(),
            pv == pobjs.deep_view(),
            ports@.len() == i,
            forall|k: int|
                0 <= k < i ==> (#[trigger] ports@[k])@ == port_spec(dv, pv[k]),
        decreases np - i,
    {
        ports.push(build_port(data, pobjs[i].as_str()));
        i += 1;
    }

    let r = crate::lv2::Lv2 { types, ports, name, url };
    proof {
        assert(r@.types =~= plugin_spec(dv, subj@).types);
        assert(r@.ports =~= plugin_spec(dv, subj@).ports);
    }
    r
}

/// The display name the builder extracts for `subj`.
pub open spec fn plugin_name_of(data: Seq<DatumV>, subj: Seq<char>) -> Seq<char> {
    concat_outer(objs_of(data, subj, p_doap_name()))
}

/// Does a fact among the first `n` declare `subj` to be a plugin?
pub open spec fn marker_seen_before(data: Seq<DatumV>, n: int, subj: Seq<char>) -> bool {
    exists|k: int|
        0 <= k < n && (#[trigger] data[k]).object == o_plugin_marker() && data[k].subject == subj
}

/// The subjects that contribute a plugin, walking the first `n` facts in
/// order: each subject at its first plugin declaration, and only when its
/// extracted name is non-empty.
pub open spec fn built_subjects(data: Seq<DatumV>, n: int) -> Seq<Seq<char>>
    decreases n,
{
    if n <= 0 {
        Seq::empty()
    } else {
        let pre = built_subjects(data, n - 1);
        let t = data[n - 1];
        if t.object == o_plugin_marker() && !marker_seen_before(data, n - 1, t.subject)
            && plugin_name_of(data, t.subject).len() > 0 {
            pre.push(t.subject)
        } else {
            pre
        }
    }
}

/// The plugins built from the first `n` facts, in order.
pub open spec fn build_upto(data: Seq<DatumV>, n: int) -> Seq<crate::lv2::Lv2V>
    decreases n,
{
    if n <= 0 {
        Seq::empty()
    } else {
        let pre = build_upto(data, n - 1);
        let t = data[n - 1];
        if t.object == o_plugin_marker() && !marker_seen_before(data, n - 1, t.subject)
            && plugin_name_of(data, t.subject).len() > 0 {
            pre.push(plugin_spec(data, t.subject))
        } else {
            pre
        }
    }
}

/// The distinct subjects that the first `n` facts declare to be plugins,
/// each at its first declaration.
pub open spec fn seen_subjects(data: Seq<DatumV>, n: int) -> Seq<Seq<char>>
    decreases n,
{
    if n <= 0 {
        Seq::empty()
    } else {
        let pre = seen_subjects(data, n - 1);
        let t = data[n - 1];
        if t.object == o_plugin_marker() && !pre.contains(t.subject) {
            pre.push(t.subject)
        } else {
            pre
        }
    }
}

proof fn lemma_seen_iff(data: Seq<DatumV>, n: int)
    ensures
        forall|s: Seq<char>|
            seen_subjects(data, n).contains(s) <==> #[trigger] marker_seen_before(data, n, s),
    decreases n,
{
    if n > 0 {
        lemma_seen_iff(data, n - 1);
        let pre = seen_subjects(data, n - 1);
        let t = data[n - 1];
        assert forall|s: Seq<char>|
            seen_subjects(data, n).contains(s) implies #[trigger] marker_seen_before(
            data,
            n,
            s,
        ) by {
            if pre.contains(s) {
                assert(marker_seen_before(data, n - 1, s));
                let k = choose|k: int|
                    0 <= k < n - 1 && (#[trigger] data[k]).object == o_plugin_marker()
                        && data[k].subject == s;
            } else {
                assert(seen_subjects(data, n) == pre.push(t.subject));
                assert(s == t.subject);
            }
        }
        assert forall|s: Seq<char>| #[trigger] marker_seen_before(data, n, s)
            implies seen_subjects(data, n).contains(s) by {
            let k = choose|k: int|
                0 <= k < n && (#[trigger] data[k]).object == o_plugin_marker() && data[k].subject
                    == s;
            if k < n - 1 {
                assert(marker_seen_before(data, n - 1, s));
                assert(pre.contains(s));
                let j = choose|j: int| 0 <= j < pre.len() && pre[j] == s;
                assert(seen_subjects(data, n)[j] == s);
            } else {
                if pre.contains(s) {
                    let j = choose|j: int| 0 <= j < pre.len() && pre[j] == s;
                    assert(seen_subjects(data, n)[j] == s);
                } else {
                    assert(seen_subjects(data, n).last() == s);
                }
            }
        }
    }
}

/// Build the plugin list from the triples: one plugin per subject that a
/// fact declares to be a plugin, skipping subjects whose extracted name
/// is empty, each subject taken once however often it recurs.
pub fn build_simulators(data: &Vec<Lv2Datum>) -> (r: Vec<crate::lv2::Lv2>)
    ensures
        r@.map_values(|l: crate::lv2::Lv2| l@) == build_upto(
            data.deep_view(),
            data@.len() as int,
        ),
{
    let ghost dv = data.deep_view();
    let mut processed: Vec<String> = Vec::new();
    let mut result: Vec<crate::lv2::Lv2> = Vec::new();
    let n = data.len();
    let mut i: usize = 0;
    while i < n
        invariant
            i <= n,
            n == data@.len(),
            dv == data.deep_view(),
            result@.len() == build_upto(dv, i as int).len(),
            forall|k: int|
                0 <= k < result@.len() ==> (#[trigger] result@[k])@ == build_upto(dv, i as int)[k],
            processed.deep_view() =~= seen_subjects(dv, i as int),
        decreases n - i,
    {
        let ghost pre_built = build_upto(dv, i as int);
        let ghost pre_seen = seen_subjects(dv, i as int);
        proof {
            lemma_seen_iff(dv, i as int);
        }
        if str_eq(data[i].object.as_str(), "<http://lv2plug.in/ns/lv2core#Plugin>") {
            let subj = &data[i].subject;
            if !contains_string(&processed, subj.as_str()) {
                proof {
                    // Were the subject already declared among the first i
                    // facts, `processed` would hold it.
                    assert(!pre_seen.contains(subj@));
                    assert(!marker_seen_before(dv, i as int, subj@));
                    assert(seen_subjects(dv, i as int + 1) == pre_seen.push(subj@));
                }
                processed.push(subj.clone());
                assert(processed.deep_view() =~= seen_subjects(dv, i as int + 1));
                let lv2 = build_lv2(data, data[i].subject.as_str());
                if !lv2.name.as_str().is_empty() {
                    result.push(lv2);
                    proof {
                        assert(plugin_name_of(dv, dv[i as int].subject).len() > 0);
                        assert(build_upto(dv, i as int + 1) == pre_built.push(
                            plugin_spec(dv, dv[i as int].subject),
                        ));
                    }
                } else {
                    proof {
                        assert(plugin_name_of(dv, dv[i as int].subject).len() == 0);
                        assert(build_upto(dv, i as int + 1) == pre_built);
                    }
                }
            } else {
                proof {
                    assert(pre_seen.contains(subj@));
                    assert(marker_seen_before(dv, i as int, subj@));
                    assert(seen_subjects(dv, i as int + 1) == pre_seen);
                    assert(build_upto(dv, i as int + 1) == pre_built);
                }
            }
        } else {
            proof {
                assert(dv[i as int].object != o_plugin_marker());
                assert(seen_subjects(dv, i as int + 1) == pre_seen);
                assert(build_upto(dv, i as int + 1) == pre_built);
            }
        }
        i += 1;
    }
    proof {
        assert(result@.map_values(|l: crate::lv2::Lv2| l@) =~= build_upto(dv, n as int));
    }
    result
}

proof fn lemma_built_subjects_tagged(data: Seq<DatumV>, n: int)
    ensures
        forall|j: int|
            0 <= j < built_subjects(data, n).len() ==> marker_seen_before(
                data,
                n,
                #[trigger] built_subjects(data, n)[j],
            ) && plugin_name_of(data, built_subjects(data, n)[j]).len() > 0,
    decreases n,
{
    if n > 0 {
        lemma_built_subjects_tagged(data, n - 1);
        let pre = built_subjects(data, n - 1);
        assert forall|j: int| 0 <= j < built_subjects(data, n).len() implies marker_seen_before(
            data,
            n,
            #[trigger] built_subjects(data, n)[j],
        ) && plugin_name_of(data, built_subjects(data, n)[j]).len() > 0 by {
            if j < pre.len() {
                assert(built_subjects(data, n)[j] == pre[j]);
                assert(marker_seen_before(data, n - 1, pre[j]));
                let k = choose|k: int|
                    0 <= k < n - 1 && (#[trigger] data[k]).object == o_plugin_marker()
                        && data[k].subject == pre[j];
                assert(marker_seen_before(data, n, pre[j]));
            } else {
                assert(built_subjects(data, n)[j] == data[n - 1].subject);
                assert(data[n - 1].object == o_plugin_marker());
                assert(marker_seen_before(data, n, data[n - 1].subject));
            }
        }
    }
}

/// No subject contributes twice: the builder's output has one entry per
/// plugin subject.
pub proof fn lemma_built_subjects_distinct(data: Seq<DatumV>, n: int)
    ensures
        forall|i: int, j: int|
            0 <= i < j < built_subjects(data, n).len() ==> #[trigger] built_subjects(data, n)[i]
                != #[trigger] built_subjects(data, n)[j],
    decreases n,
{
    if n > 0 {
        lemma_built_subjects_distinct(data, n - 1);
        lemma_built_subjects_tagged(data, n - 1);
        let pre = built_subjects(data, n - 1);
        let t = data[n - 1];
        if t.object == o_plugin_marker() && !marker_seen_before(data, n - 1, t.subject)
            && plugin_name_of(data, t.subject).len() > 0 {
            assert forall|i: int, j: int|
                0 <= i < j < built_subjects(data, n).len() implies #[trigger] built_subjects(
                data,
                n,
            )[i] != #[trigger] built_subjects(data, n)[j] by {
                if j == pre.len() {
                    assert(built_subjects(data, n)[j] == t.subject);
                    assert(built_subjects(data, n)[i] == pre[i]);
                    assert(marker_seen_before(data, n - 1, pre[i]));
                }
            }
        }
    }
}

/// Every subject that some fact tags as a plugin, and whose extracted
/// name is non-empty, contributes.
pub proof fn lemma_built_subjects_complete(data: Seq<DatumV>, n: int, s: Seq<char>)
    requires
        marker_seen_before(data, n, s),
        plugin_name_of(data, s).len() > 0,
    ensures
        built_subjects(data, n).contains(s),
    decreases n,
{
    let pre = built_subjects(data, n - 1);
    if marker_seen_before(data, n - 1, s) {
        lemma_built_subjects_complete(data, n - 1, s);
        let j = choose|j: int| 0 <= j < pre.len() && pre[j] == s;
        assert(built_subjects(data, n)[j] == s);
    } else {
        let k = choose|k: int|
            0 <= k < n && (#[trigger] data[k]).object == o_plugin_marker() && data[k].subject
                == s;
        assert(k == n - 1);
        assert(built_subjects(data, n).last() == s);
    }
}

/// The built list follows the contributing subjects one for one.
pub proof fn lemma_build_upto_matches(data: Seq<DatumV>, n: int)
    ensures
        build_upto(data, n).len() == built_subjects(data, n).len(),
        forall|i: int|
            0 <= i < build_upto(data, n).len() ==> #[trigger] build_upto(data, n)[i]
                == plugin_spec(data, built_subjects(data, n)[i]),
    decreases n,
{
    if n > 0 {
        lemma_build_upto_matches(data, n - 1);
    }
}

/// Round trip of the builder: every subject that the triples tag as a
/// plugin and that carries a non-empty name appears in the built list, at
/// exactly one position, as the plugin built from its facts — no
/// duplicates however often the subject recurs.
pub proof fn lemma_build_exactly_once(data: Seq<DatumV>, s: Seq<char>)
    requires
        marker_seen_before(data, data.len() as int, s),
        plugin_name_of(data, s).len() > 0,
    ensures
        exists|i: int|
            0 <= i < build_upto(data, data.len() as int).len() && #[trigger] built_subjects(
                data,
                data.len() as int,
            )[i] == s && build_upto(data, data.len() as int)[i] == plugin_spec(data, s),
        forall|i: int, j: int|
            0 <= i < j < built_subjects(data, data.len() as int).len() ==> #[trigger] built_subjects(
                data,
                data.len() as int,
            )[i] != #[trigger] built_subjects(data, data.len() as int)[j],
{
    let n = data.len() as int;
    lemma_built_subjects_complete(data, n, s);
    lemma_built_subjects_distinct(data, n);
    lemma_build_upto_matches(data, n);
    let i = choose|i: int| 0 <= i < built_subjects(data, n).len() && built_subjects(data, n)[i] == s;
    assert(build_upto(data, n)[i] == plugin_spec(data, s));
}

} // verus!
