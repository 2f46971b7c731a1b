//! Properties of template compilation and of message truncation, proved
//! over the specifications that the library's functions meet.
use vstd::prelude::*;
use vstd::utf8::{encode_utf8, is_char_boundary};

use crate::job::{cut_point, truncated_bytes, MESSAGE_SIZE_LIMIT};
use crate::template::{
    compile, contains, first_value, is_reserved_key, name_length, occurs_at, placeholder_of,
    starts_with_substituted, value_of,
};

verus! {

/// A placeholder name in the template syntax: no braces inside.
pub open spec fn is_identifier(key: Seq<char>) -> bool {
    forall|i: int| 0 <= i < key.len() ==> key[i] != '{' && key[i] != '}'
}

/// The parameters with every reserved entry left out, order kept.
pub open spec fn without_reserved(params: Seq<(Seq<char>, Seq<char>)>) -> Seq<(Seq<char>, Seq<char>)>
    decreases params.len(),
{
    if params.len() == 0 {
        params
    } else if is_reserved_key(params[0].0) {
        without_reserved(params.drop_first())
    } else {
        seq![params[0]] + without_reserved(params.drop_first())
    }
}

/// `pieces` joined with `sep` between consecutive pieces.
pub open spec fn join(pieces: Seq<Seq<char>>, sep: Seq<char>) -> Seq<char>
    decreases pieces.len(),
{
    if pieces.len() == 0 {
        Seq::empty()
    } else if pieces.len() == 1 {
        pieces[0]
    } else {
        pieces[0] + sep + join(pieces.drop_first(), sep)
    }
}

/// Each piece compiled on its own.
pub open spec fn compiled_pieces(pieces: Seq<Seq<char>>, params: Seq<(Seq<char>, Seq<char>)>) -> Seq<
    Seq<char>,
> {
    pieces.map_values(|p: Seq<char>| compile(p, params))
}

/// What the placeholder `{key}` compiles to: its value, or itself.
pub open spec fn expansion(params: Seq<(Seq<char>, Seq<char>)>, key: Seq<char>) -> Seq<char> {
    match value_of(params, key) {
        Some(v) => v,
        None => placeholder_of(key),
    }
}

proof fn name_length_bound(s: Seq<char>)
    ensures
        name_length(s) <= s.len(),
    decreases s.len(),
{
    if s.len() > 0 {
        name_length_bound(s.drop_first());
    }
}

/// A name stops at a brace, so text after it that starts with `{` does not
/// change it.
proof fn name_length_append(a: Seq<char>, z: Seq<char>)
    requires
        z.len() == 0 || z[0] == '{',
    ensures
        name_length(a + z) == name_length(a),
    decreases a.len(),
{
    if a.len() == 0 {
        assert(a + z =~= z);
    } else {
        assert((a + z).drop_first() =~= a.drop_first() + z);
        name_length_append(a.drop_first(), z);
    }
}

proof fn name_length_identifier(key: Seq<char>, y: Seq<char>)
    requires
        is_identifier(key),
    ensures
        name_length(key + seq!['}'] + y) == key.len(),
    decreases key.len(),
{
    let s = key + seq!['}'] + y;
    if key.len() == 0 {
        assert(s[0] == '}');
    } else {
        assert(s[0] == key[0]);
        let k1 = key.drop_first();
        assert(s.drop_first() =~= k1 + seq!['}'] + y);
        assert forall|i: int| 0 <= i < k1.len() implies k1[i] != '{' && k1[i] != '}' by {
            assert(k1[i] == key[i + 1]);
        }
        name_length_identifier(k1, y);
    }
}

/// Text that starts with `{` compiles apart from what comes before it.
proof fn compile_concat(x: Seq<char>, z: Seq<char>, params: Seq<(Seq<char>, Seq<char>)>)
    requires
        z.len() == 0 || z[0] == '{',
    ensures
        compile(x + z, params) == compile(x, params) + compile(z, params),
    decreases x.len(),
{
    let s = x + z;
    if x.len() == 0 {
        assert(s =~= z);
        assert(compile(x, params) + compile(z, params) =~= compile(z, params));
    } else {
        let a = x.drop_first();
        assert(s.drop_first() =~= a + z);
        name_length_append(a, z);
        name_length_bound(a);
        let n = name_length(a) as int;
        assert(s[0] == x[0]);
        if n + 1 < x.len() {
            assert(s[n + 1] == x[n + 1]);
            assert(s.subrange(1, n + 1) =~= x.subrange(1, n + 1));
        } else if n + 1 < s.len() {
            assert(s[n + 1] == z[0]);
        }
        if starts_with_substituted(s, params) {
            assert(starts_with_substituted(x, params));
            assert(s.skip(n + 2) =~= x.skip(n + 2) + z);
            compile_concat(x.skip(n + 2), z, params);
            let v = value_of(params, x.subrange(1, n + 1))->Some_0;
            assert(v + (compile(x.skip(n + 2), params) + compile(z, params)) =~= (v + compile(
                x.skip(n + 2),
                params,
            )) + compile(z, params));
        } else {
            assert(!starts_with_substituted(x, params));
            compile_concat(a, z, params);
            assert(seq![x[0]] + (compile(a, params) + compile(z, params)) =~= (seq![x[0]] + compile(
                a,
                params,
            )) + compile(z, params));
        }
    }
}

/// Text without `{` is copied as it is.
proof fn compile_plain(w: Seq<char>, y: Seq<char>, params: Seq<(Seq<char>, Seq<char>)>)
    requires
        forall|i: int| 0 <= i < w.len() ==> w[i] != '{',
    ensures
        compile(w + y, params) == w + compile(y, params),
    decreases w.len(),
{
    if w.len() == 0 {
        assert(w + y =~= y);
        assert(w + compile(y, params) =~= compile(y, params));
    } else {
        let s = w + y;
        let w1 = w.drop_first();
        assert(s[0] == w[0]);
        assert(s.drop_first() =~= w1 + y);
        assert forall|i: int| 0 <= i < w1.len() implies w1[i] != '{' by {
            assert(w1[i] == w[i + 1]);
        }
        compile_plain(w1, y, params);
        assert(seq![w[0]] + (w1 + compile(y, params)) =~= w + compile(y, params));
    }
}

/// A placeholder at the start compiles to its expansion.
proof fn compile_placeholder(key: Seq<char>, y: Seq<char>, params: Seq<(Seq<char>, Seq<char>)>)
    requires
        is_identifier(key),
    ensures
        compile(placeholder_of(key) + y, params) == expansion(params, key) + compile(y, params),
{
    let p = placeholder_of(key);
    let s = p + y;
    let n = key.len() as int;
    assert(s.drop_first() =~= key + seq!['}'] + y);
    name_length_identifier(key, y);
    assert(s[0] == '{');
    assert(s[n + 1] == '}');
    assert(s.subrange(1, n + 1) =~= key);
    match value_of(params, key) {
        Some(v) => {
            assert(starts_with_substituted(s, params));
            assert(s.skip(n + 2) =~= y);
        },
        None => {
            assert(!starts_with_substituted(s, params));
            let w = key + seq!['}'];
            assert forall|i: int| 0 <= i < w.len() implies w[i] != '{' by {
                if i < n {
                    assert(w[i] == key[i]);
                }
            }
            assert(w + y =~= key + seq!['}'] + y);
            compile_plain(w, y, params);
            assert(seq!['{'] + (w + compile(y, params)) =~= p + compile(y, params));
        },
    }
}

proof fn compile_join(pieces: Seq<Seq<char>>, key: Seq<char>, params: Seq<(Seq<char>, Seq<char>)>)
    requires
        is_identifier(key),
    ensures
        compile(join(pieces, placeholder_of(key)), params) == join(
            compiled_pieces(pieces, params),
            expansion(params, key),
        ),
    decreases pieces.len(),
{
    let p = placeholder_of(key);
    let c = compiled_pieces(pieces, params);
    if pieces.len() == 0 {
    } else if pieces.len() == 1 {
        assert(c[0] == compile(pieces[0], params));
    } else {
        let rest = pieces.drop_first();
        compile_join(rest, key, params);
        assert(compiled_pieces(rest, params) =~= c.drop_first());
        assert(c[0] == compile(pieces[0], params));
        let tail = join(rest, p);
        assert(pieces[0] + p + tail =~= pieces[0] + (p + tail));
        compile_concat(pieces[0], p + tail, params);
        compile_placeholder(key, tail, params);
        assert(compile(pieces[0], params) + (expansion(params, key) + compile(tail, params))
            =~= compile(pieces[0], params) + expansion(params, key) + compile(tail, params));
    }
}

/// Two parameter lists compile a template alike where they give the same
/// value to every name that occurs in it as a placeholder.
proof fn compile_agree(
    t: Seq<char>,
    ps1: Seq<(Seq<char>, Seq<char>)>,
    ps2: Seq<(Seq<char>, Seq<char>)>,
)
    requires
        forall|nm: Seq<char>|
            #[trigger] value_of(ps1, nm) != value_of(ps2, nm) ==> !contains(t, placeholder_of(nm)),
    ensures
        compile(t, ps1) == compile(t, ps2),
    decreases t.len(),
{
    if t.len() > 0 {
        let n = name_length(t.drop_first()) as int;
        name_length_bound(t.drop_first());
        let nm = t.subrange(1, n + 1);
        if t[0] == '{' && n + 1 < t.len() && t[n + 1] == '}' {
            assert(t.subrange(0, n + 2) =~= placeholder_of(nm));
            assert(occurs_at(t, placeholder_of(nm), 0));
            assert(value_of(ps1, nm) == value_of(ps2, nm));
        }
        let m = if starts_with_substituted(t, ps1) { n + 2 } else { 1 };
        let u = t.skip(m);
        assert forall|q: Seq<char>|
            #[trigger] value_of(ps1, q) != value_of(ps2, q) implies !contains(u, placeholder_of(q)) by {
            if contains(u, placeholder_of(q)) {
                let pq = placeholder_of(q);
                let i = choose|i: int| #[trigger] occurs_at(u, pq, i);
                assert(t.subrange(i + m, i + m + pq.len()) =~= u.subrange(i, i + pq.len()));
                assert(occurs_at(t, pq, i + m));
            }
        }
        compile_agree(u, ps1, ps2);
        if m == 1 {
            assert(u =~= t.drop_first());
        }
    }
}

proof fn value_of_without_reserved(params: Seq<(Seq<char>, Seq<char>)>, name: Seq<char>)
    ensures
        value_of(params, name) == value_of(without_reserved(params), name),
    decreases params.len(),
{
    if params.len() > 0 {
        value_of_without_reserved(params.drop_first(), name);
        if !is_reserved_key(params[0].0) {
            let w = seq![params[0]] + without_reserved(params.drop_first());
            assert(w[0] == params[0]);
            assert(w.drop_first() =~= without_reserved(params.drop_first()));
        }
    }
}

proof fn first_value_insert(
    params: Seq<(Seq<char>, Seq<char>)>,
    i: int,
    key: Seq<char>,
    val: Seq<char>,
    name: Seq<char>,
)
    requires
        0 <= i <= params.len(),
        name != key,
    ensures
        first_value(params.insert(i, (key, val)), name) == first_value(params, name),
    decreases params.len(),
{
    let ins = params.insert(i, (key, val));
    if i == 0 {
        assert(ins[0] == (key, val));
        assert(ins.drop_first() =~= params);
    } else {
        assert(ins[0] == params[0]);
        assert(ins.drop_first() =~= params.drop_first().insert(i - 1, (key, val)));
        first_value_insert(params.drop_first(), i - 1, key, val, name);
    }
}

/// Reserved keys are never substituted: compiling with the reserved entries
/// present gives the same command as compiling without them.
pub proof fn reserved_keys_are_not_substituted(
    t: Seq<char>,
    params: Seq<(Seq<char>, Seq<char>)>,
)
    ensures
        compile(t, params) == compile(t, without_reserved(params)),
{
    assert forall|nm: Seq<char>|
        #[trigger] value_of(params, nm) != value_of(without_reserved(params), nm) implies !contains(
        t,
        placeholder_of(nm),
    ) by {
        value_of_without_reserved(params, nm);
    }
    compile_agree(t, params, without_reserved(params));
}

/// A placeholder of a reserved name stays literal at every one of its
/// occurrences, whatever the parameters hold.
pub proof fn reserved_placeholders_stay(
    pieces: Seq<Seq<char>>,
    key: Seq<char>,
    params: Seq<(Seq<char>, Seq<char>)>,
)
    requires
        is_identifier(key),
        is_reserved_key(key),
    ensures
        compile(join(pieces, placeholder_of(key)), params) == join(
            compiled_pieces(pieces, params),
            placeholder_of(key),
        ),
{
    compile_join(pieces, key, params);
}

/// A placeholder occurring any number of times is replaced at every
/// position by the same value, that of its parameter.
pub proof fn every_occurrence_is_replaced(
    pieces: Seq<Seq<char>>,
    key: Seq<char>,
    val: Seq<char>,
    params: Seq<(Seq<char>, Seq<char>)>,
)
    requires
        is_identifier(key),
        !is_reserved_key(key),
        first_value(params, key) == Some(val),
    ensures
        compile(join(pieces, placeholder_of(key)), params) == join(
            compiled_pieces(pieces, params),
            val,
        ),
{
    compile_join(pieces, key, params);
}

/// A placeholder that no parameter names is left literal at every one of
/// its occurrences.
pub proof fn unknown_placeholder_is_kept(
    pieces: Seq<Seq<char>>,
    key: Seq<char>,
    params: Seq<(Seq<char>, Seq<char>)>,
)
    requires
        is_identifier(key),
        first_value(params, key) is None,
    ensures
        compile(join(pieces, placeholder_of(key)), params) == join(
            compiled_pieces(pieces, params),
            placeholder_of(key),
        ),
{
    compile_join(pieces, key, params);
}

/// A parameter whose placeholder does not occur in the template changes
/// nothing, wherever it stands in the parameter list.
pub proof fn unused_parameter_is_a_no_op(
    t: Seq<char>,
    key: Seq<char>,
    val: Seq<char>,
    params: Seq<(Seq<char>, Seq<char>)>,
    i: int,
)
    requires
        0 <= i <= params.len(),
        !contains(t, placeholder_of(key)),
    ensures
        compile(t, params.insert(i, (key, val))) == compile(t, params),
{
    let ins = params.insert(i, (key, val));
    assert forall|nm: Seq<char>| #[trigger] value_of(ins, nm) != value_of(params, nm) implies !contains(
        t,
        placeholder_of(nm),
    ) by {
        if nm != key {
            first_value_insert(params, i, key, val, nm);
        }
    }
    compile_agree(t, ins, params);
}

/// No two parameters share a name.
pub open spec fn distinct_keys(params: Seq<(Seq<char>, Seq<char>)>) -> bool {
    forall|i: int, j: int| 0 <= i < j < params.len() ==> params[i].0 != params[j].0
}

proof fn first_value_of_distinct(params: Seq<(Seq<char>, Seq<char>)>, name: Seq<char>, i: int)
    requires
        distinct_keys(params),
        0 <= i < params.len(),
        params[i].0 == name,
    ensures
        first_value(params, name) == Some(params[i].1),
    decreases params.len(),
{
    if i > 0 {
        assert(params[0].0 != params[i].0);
        let rest = params.drop_first();
        assert(rest[i - 1] == params[i]);
        first_value_of_distinct(rest, name, i - 1);
    }
}

proof fn first_value_absent(params: Seq<(Seq<char>, Seq<char>)>, name: Seq<char>)
    requires
        forall|i: int| 0 <= i < params.len() ==> params[i].0 != name,
    ensures
        first_value(params, name) is None,
    decreases params.len(),
{
    if params.len() > 0 {
        let rest = params.drop_first();
        assert forall|i: int| 0 <= i < rest.len() implies rest[i].0 != name by {
            assert(rest[i] == params[i + 1]);
        }
        first_value_absent(rest, name);
    }
}

proof fn first_value_same_pairs(
    ps1: Seq<(Seq<char>, Seq<char>)>,
    ps2: Seq<(Seq<char>, Seq<char>)>,
    name: Seq<char>,
)
    requires
        distinct_keys(ps1),
        distinct_keys(ps2),
        forall|p: (Seq<char>, Seq<char>)| ps1.contains(p) ==> ps2.contains(p),
    ensures
        first_value(ps1, name) is Some ==> first_value(ps2, name) == first_value(ps1, name),
{
    if exists|i: int| 0 <= i < ps1.len() && ps1[i].0 == name {
        let i = choose|i: int| 0 <= i < ps1.len() && ps1[i].0 == name;
        first_value_of_distinct(ps1, name, i);
        assert(ps1.contains(ps1[i]));
        let j = choose|j: int| 0 <= j < ps2.len() && ps2[j] == ps1[i];
        first_value_of_distinct(ps2, name, j);
    } else {
        first_value_absent(ps1, name);
    }
}

/// With distinct names, the order of the parameters does not matter: two
/// lists holding the same pairs compile every template alike.
pub proof fn parameter_order_does_not_matter(
    t: Seq<char>,
    ps1: Seq<(Seq<char>, Seq<char>)>,
    ps2: Seq<(Seq<char>, Seq<char>)>,
)
    requires
        distinct_keys(ps1),
        distinct_keys(ps2),
        forall|p: (Seq<char>, Seq<char>)| ps1.contains(p) <==> ps2.contains(p),
    ensures
        compile(t, ps1) == compile(t, ps2),
{
    assert forall|nm: Seq<char>| #[trigger] value_of(ps1, nm) != value_of(ps2, nm) implies !contains(
        t,
        placeholder_of(nm),
    ) by {
        first_value_same_pairs(ps1, ps2, nm);
        first_value_same_pairs(ps2, ps1, nm);
    }
    compile_agree(t, ps1, ps2);
}

proof fn cut_point_bounds(bytes: Seq<u8>, limit: int)
    requires
        limit >= 0,
    ensures
        0 <= cut_point(bytes, limit) <= bytes.len(),
        limit >= bytes.len() ==> cut_point(bytes, limit) == bytes.len(),
        limit < bytes.len() ==> cut_point(bytes, limit) <= limit,
    decreases limit,
{
    if limit < bytes.len() && limit > 0 && !is_char_boundary(bytes, limit) {
        cut_point_bounds(bytes, limit - 1);
    }
}

/// The message of a completed job is a prefix of the output's UTF-8 bytes of
/// at most the size limit; output within the limit is kept whole, and longer
/// output with a character boundary at the limit keeps exactly the limit.
pub proof fn output_is_cut_to_the_limit(text: Seq<char>)
    ensures
        truncated_bytes(text).len() <= MESSAGE_SIZE_LIMIT,
        truncated_bytes(text) == encode_utf8(text).take(truncated_bytes(text).len() as int),
        encode_utf8(text).len() <= MESSAGE_SIZE_LIMIT ==> truncated_bytes(text) == encode_utf8(text),
        encode_utf8(text).len() > MESSAGE_SIZE_LIMIT && is_char_boundary(
            encode_utf8(text),
            MESSAGE_SIZE_LIMIT as int,
        ) ==> truncated_bytes(text).len() == MESSAGE_SIZE_LIMIT,
{
    let b = encode_utf8(text);
    cut_point_bounds(b, MESSAGE_SIZE_LIMIT as int);
    let c = cut_point(b, MESSAGE_SIZE_LIMIT as int);
    assert(truncated_bytes(text).len() == c);
    if b.len() <= MESSAGE_SIZE_LIMIT {
        assert(b.take(b.len() as int) =~= b);
    }
}

} // verus!
