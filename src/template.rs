//! The template compiler: substitutes `{name}` placeholders of the template
//! with parameter values in one left-to-right pass, leaving reserved and
//! unknown names untouched.
use vstd::prelude::*;

use crate::text::{append_chars, chars_of, same_chars, string_of, sub_chars};

verus! {

/// Name of the reserved parameter that carries the template itself.
pub const COMMAND_TEMPLATE_IDENTIFIER: &'static str = "command_template";

/// Name of the reserved parameter that carries the working directory.
pub const EXECUTION_DIRECTORY_PARAMETER: &'static str = "exec_dir";

/// Reserved keys configure the execution and are never substituted.
pub open spec fn is_reserved_key(key: Seq<char>) -> bool {
    key == COMMAND_TEMPLATE_IDENTIFIER@ || key == EXECUTION_DIRECTORY_PARAMETER@
}

/// The placeholder text `{key}`.
pub open spec fn placeholder_of(key: Seq<char>) -> Seq<char> {
    seq!['{'] + key + seq!['}']
}

/// Whether `pat` begins at position `i` of `s`.
pub open spec fn occurs_at(s: Seq<char>, pat: Seq<char>, i: int) -> bool {
    0 <= i && i + pat.len() <= s.len() && s.subrange(i, i + pat.len()) == pat
}

/// Whether `pat` occurs anywhere in `s`.
pub open spec fn contains(s: Seq<char>, pat: Seq<char>) -> bool {
    exists|i: int| #[trigger] occurs_at(s, pat, i)
}

/// The parameters as pairs of character sequences, in order.
pub open spec fn params_view(params: Seq<(String, String)>) -> Seq<(Seq<char>, Seq<char>)> {
    params.map_values(|p: (String, String)| (p.0@, p.1@))
}

/// The value of the first parameter named `name`, if any.
pub open spec fn first_value(params: Seq<(Seq<char>, Seq<char>)>, name: Seq<char>) -> Option<
    Seq<char>,
>
    decreases params.len(),
{
    if params.len() == 0 {
        None
    } else if params[0].0 == name {
        Some(params[0].1)
    } else {
        first_value(params.drop_first(), name)
    }
}

/// The value that a placeholder `{name}` takes: none for a reserved name,
/// else that of the first parameter so named.
pub open spec fn value_of(params: Seq<(Seq<char>, Seq<char>)>, name: Seq<char>) -> Option<
    Seq<char>,
> {
    if is_reserved_key(name) {
        None
    } else {
        first_value(params, name)
    }
}

/// Length of the run of characters other than braces at the start of `s`.
pub open spec fn name_length(s: Seq<char>) -> nat
    decreases s.len(),
{
    if s.len() == 0 || s[0] == '{' || s[0] == '}' {
        0
    } else {
        1 + name_length(s.drop_first())
    }
}

/// Whether `s` starts with a placeholder `{name}` whose name has a value;
/// the name is then `s[1..name_length + 1]`.
pub open spec fn starts_with_substituted(s: Seq<char>, params: Seq<(Seq<char>, Seq<char>)>) -> bool {
    let n = name_length(s.drop_first()) as int;
    &&& s.len() > 0
    &&& s[0] == '{'
    &&& n + 1 < s.len()
    &&& s[n + 1] == '}'
    &&& value_of(params, s.subrange(1, n + 1)) is Some
}

/// The compiled command: the template read from left to right, each
/// placeholder whose name has a value replaced by it. Inserted values are
/// never read again, so they cannot bring in placeholders of their own.
pub open spec fn compile(t: Seq<char>, params: Seq<(Seq<char>, Seq<char>)>) -> Seq<char>
    decreases t.len(),
{
    if t.len() == 0 {
        t
    } else if starts_with_substituted(t, params) {
        let n = name_length(t.drop_first()) as int;
        value_of(params, t.subrange(1, n + 1))->Some_0 + compile(t.skip(n + 2), params)
    } else {
        seq![t[0]] + compile(t.drop_first(), params)
    }
}

fn is_reserved_chars(key: &Vec<char>) -> (r: bool)
    ensures
        r == is_reserved_key(key@),
{
    same_chars(key, &chars_of(COMMAND_TEMPLATE_IDENTIFIER)) || same_chars(
        key,
        &chars_of(EXECUTION_DIRECTORY_PARAMETER),
    )
}

/// Whether `key` names one of the reserved parameters.
pub fn is_reserved(key: &str) -> (r: bool)
    ensures
        r == is_reserved_key(key@),
{
    is_reserved_chars(&chars_of(key))
}

/// Position of the first parameter named `name`.
fn find_value(keys: &Vec<Vec<char>>, name: &Vec<char>, ps: Ghost<Seq<(Seq<char>, Seq<char>)>>) -> (r:
    Option<usize>)
    requires
        keys@.len() == ps@.len(),
        forall|k: int| 0 <= k < ps@.len() ==> #[trigger] keys@[k]@ == ps@[k].0,
    ensures
        r is None ==> first_value(ps@, name@) is None,
        r is Some ==> r->Some_0 < ps@.len() && first_value(ps@, name@) == Some(ps@[r->Some_0 as int].1),
{
    let mut k: usize = 0;
    assert(ps@.skip(0) =~= ps@);
    while k < keys.len()
        invariant
            keys@.len() == ps@.len(),
            forall|k: int| 0 <= k < ps@.len() ==> #[trigger] keys@[k]@ == ps@[k].0,
            k <= ps@.len(),
            first_value(ps@, name@) == first_value(ps@.skip(k as int), name@),
        decreases keys@.len() - k,
    {
        assert(ps@.skip(k as int)[0] == ps@[k as int]);
        assert(ps@.skip(k as int).drop_first() =~= ps@.skip(k + 1));
        if same_chars(&keys[k], name) {
            return Some(k);
        }
        k = k + 1;
    }
    None
}

/// Substitutes every placeholder of the template whose name is a non-reserved
/// parameter, reading the template once from left to right; where two
/// parameters share a name, the first one's value is used. Placeholders of
/// reserved or unknown names stay as they are, and inserted values are never
/// scanned again.
pub fn compile_command_template(command_template: String, param_map: Vec<(String, String)>) -> (r:
    String)
    ensures
        r@ == compile(command_template@, params_view(param_map@)),
{
    let ghost ps = params_view(param_map@);
    let mut keys: Vec<Vec<char>> = Vec::new();
    let mut values: Vec<Vec<char>> = Vec::new();
    let mut k: usize = 0;
    while k < param_map.len()
        invariant
            ps == params_view(param_map@),
            k <= param_map@.len(),
            keys@.len() == k && values@.len() == k,
            forall|j: int| 0 <= j < k ==> #[trigger] keys@[j]@ == ps[j].0 && values@[j]@ == ps[j].1,
        decreases param_map@.len() - k,
    {
        assert(ps[k as int] == (param_map@[k as int].0@, param_map@[k as int].1@));
        keys.push(chars_of(param_map[k].0.as_str()));
        values.push(chars_of(param_map[k].1.as_str()));
        k = k + 1;
    }
    let s = chars_of(command_template.as_str());
    let len = s.len();
    let mut out: Vec<char> = Vec::new();
    let mut i: usize = 0;
    assert(s@.skip(0) =~= s@);
    assert(out@ + compile(s@, ps) =~= compile(s@, ps));
    while i < len
        invariant
            ps == params_view(param_map@),
            keys@.len() == ps.len() && values@.len() == ps.len(),
            forall|j: int| 0 <= j < ps.len() ==> #[trigger] keys@[j]@ == ps[j].0 && values@[j]@ == ps[j].1,
            len == s@.len(),
            s@ == command_template@,
            i <= len,
            out@ + compile(s@.skip(i as int), ps) == compile(s@, ps),
        decreases len - i,
    {
        let ghost rest = s@.skip(i as int);
        let ghost before = out@;
        assert(rest.drop_first() =~= s@.skip(i + 1));
        let mut next = i + 1;
        let mut hit = false;
        if s[i] == '{' {
            let mut j = i + 1;
            while j < len && s[j] != '{' && s[j] != '}'
                invariant
                    len == s@.len(),
                    i + 1 <= j <= len,
                    name_length(s@.skip(i + 1)) == (j - i - 1) + name_length(s@.skip(j as int)),
                decreases len - j,
            {
                assert(s@.skip(j as int).drop_first() =~= s@.skip(j + 1));
                j = j + 1;
            }
            assert(name_length(s@.skip(j as int)) == 0);
            assert(rest.subrange(1, (j - i) as int) =~= s@.subrange(i + 1, j as int));
            assert(name_length(rest.drop_first()) == j - i - 1);
            if j < len && s[j] == '}' {
                assert(rest[(j - i) as int] == s@[j as int]);
                let name = sub_chars(&s, i + 1, j);
                let found = if is_reserved_chars(&name) {
                    None
                } else {
                    find_value(&keys, &name, Ghost(ps))
                };
                if let Some(at) = found {
                    assert(keys@[at as int]@ == ps[at as int].0);
                    assert(name@ == rest.subrange(1, (j - i) as int));
                    assert(value_of(ps, rest.subrange(1, (j - i) as int)) == Some(
                        values@[at as int]@,
                    ));
                    assert(starts_with_substituted(rest, ps));
                    assert(rest.skip((j - i + 1) as int) =~= s@.skip(j + 1));
                    append_chars(&mut out, &values[at]);
                    assert(before + (values@[at as int]@ + compile(s@.skip(j + 1), ps)) =~= out@
                        + compile(s@.skip(j + 1), ps));
                    next = j + 1;
                    hit = true;
                } else {
                    assert(value_of(ps, rest.subrange(1, (j - i) as int)) is None);
                    assert(!starts_with_substituted(rest, ps));
                }
            } else {
                if j < len {
                    assert(rest[(j - i) as int] == s@[j as int]);
                }
                assert(!starts_with_substituted(rest, ps));
            }
        } else {
            assert(!starts_with_substituted(rest, ps));
        }
        if !hit {
            out.push(s[i]);
            assert(before + (seq![s@[i as int]] + compile(s@.skip(i + 1), ps)) =~= out@ + compile(
                s@.skip(i + 1),
                ps,
            ));
        }
        i = next;
    }
    assert(s@.skip(len as int) =~= Seq::<char>::empty());
    assert(out@ + Seq::<char>::empty() =~= out@);
    string_of(&out)
}

} // verus!
