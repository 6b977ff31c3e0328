//! Package ids, directory names and versions.

use vstd::prelude::*;
use vstd::string::*;
use vstd::utf8::is_ascii_chars;

use crate::text::{
    all_digits, ascii_lowercase, before, chars_of, digit, is_digit, is_lower, is_upper, is_white,
    lemma_before, lemma_pieces_append, lower, lowercase, pieces, replace, replaced, split,
    text_before, texts, to_lowercase, trim, trim_end, trim_start, trimmed, upper,
};


verus! {

/// The package id that a name given by a user stands for: without white space at
/// its ends, in lower case, with dots for spaces.
pub open spec fn package_id(s: Seq<char>) -> Seq<char> {
    replaced(lowercase(trimmed(s)), ' ', '.')
}

/// The package id of an ASCII name.
pub open spec fn ascii_package_id(s: Seq<char>) -> Seq<char> {
    replaced(ascii_lowercase(trimmed(s)), ' ', '.')
}

/// The package id of a name in lower case, without white space at its ends.
pub fn id_of_lowercase(lower: &str) -> (r: String)
    ensures
        r@ == replaced(lower@, ' ', '.'),
{
    replace(lower, ' ', '.')
}

/// The package id of a name.
pub fn sanitize_name(s: &str) -> (r: String)
    ensures
        r@ == package_id(s@),
        forall|k: int| 0 <= k < r@.len() ==> #[trigger] r@[k] != ' ' && !is_upper(r@[k]),
        is_ascii_chars(s@) ==> r@ == ascii_package_id(s@),
        valid_id(s@) ==> r@ == s@,
{
    let t = trim(s);
    proof {
        lemma_trimmed_part(s@);
        if is_ascii_chars(s@) {
            assert(is_ascii_chars(t@));
        }
        if valid_id(s@) {
            assert(is_ascii_chars(s@));
            assert(trimmed(s@) == s@);
            assert(ascii_lowercase(s@) =~= s@);
            assert(replaced(s@, ' ', '.') =~= s@);
        }
    }
    let l = to_lowercase(t.as_str());
    id_of_lowercase(l.as_str())
}

/// The trimmed text is a part of the text.
pub proof fn lemma_trimmed_part(s: Seq<char>)
    ensures
        forall|k: int|
            0 <= k < trimmed(s).len() ==> s.contains(#[trigger] trimmed(s)[k]),
        trimmed(s).len() <= s.len(),
{
    lemma_trim_start_part(s);
    lemma_trim_end_part(trim_start(s));
    let t = trim_start(s);
    assert forall|k: int| 0 <= k < trimmed(s).len() implies s.contains(
        #[trigger] trimmed(s)[k],
    ) by {
        assert(trimmed(s)[k] == t[k]);
        assert(t[k] == s[k + (s.len() - t.len())]);
    }
}

proof fn lemma_trim_start_part(s: Seq<char>)
    ensures
        trim_start(s).len() <= s.len(),
        trim_start(s) == s.skip(s.len() - trim_start(s).len()),
    decreases s.len(),
{
    if s.len() > 0 && is_white(s[0]) {
        lemma_trim_start_part(s.drop_first());
        assert(trim_start(s) =~= s.skip(s.len() - trim_start(s).len()));
    } else {
        assert(s =~= s.skip(0));
    }
}

proof fn lemma_trim_end_part(s: Seq<char>)
    ensures
        trim_end(s).len() <= s.len(),
        trim_end(s) == s.take(trim_end(s).len() as int),
    decreases s.len(),
{
    if s.len() > 0 && is_white(s.last()) {
        lemma_trim_end_part(s.drop_last());
        assert(trim_end(s) =~= s.take(trim_end(s).len() as int));
    } else {
        assert(s =~= s.take(s.len() as int));
    }
}

/// The characters that a directory name keeps.
pub open spec fn is_dir_char(c: char) -> bool {
    is_digit(c) || is_lower(c) || is_upper(c) || c == '.' || c == '-' || c == '_'
}

/// The directory name for a package id: a dash for every character that is no
/// ASCII letter, digit, dot, dash or underscore.
pub open spec fn dir_name(s: Seq<char>) -> Seq<char> {
    s.map_values(|c: char| if is_dir_char(c) { c } else { '-' })
}

/// The directory name for a package id.
pub fn sanitize_dir(s: &str) -> (r: String)
    ensures
        r@ == dir_name(s@),
{
    let cs = chars_of(s);
    let mut out: String = String::new();
    let mut i: usize = 0;
    while i < cs.len()
        invariant
            i <= cs.len(),
            cs@ == s@,
            out@ == dir_name(s@).take(i as int),
        decreases cs.len() - i,
    {
        let c = cs[i];
        if digit(c) || lower(c) || upper(c) || c == '.' || c == '-' || c == '_' {
            out.push(c);
        } else {
            out.push('-');
        }
        i = i + 1;
    }
    assert(out@ =~= dir_name(s@));
    out
}

/// The characters of a package id.
pub open spec fn is_id_char(c: char) -> bool {
    is_digit(c) || is_lower(c) || c == '.' || c == '-' || c == '_'
}

/// A package id: one to 128 lower case ASCII letters, digits, dots, dashes and
/// underscores, of which the first is a letter or a digit.
pub open spec fn valid_id(s: Seq<char>) -> bool {
    &&& 0 < s.len() <= 128
    &&& forall|k: int| 0 <= k < s.len() ==> is_id_char(#[trigger] s[k])
    &&& is_lower(s[0]) || is_digit(s[0])
}

/// Whether a text is a package id.
pub fn is_valid_pkg_id(s: &str) -> (r: bool)
    ensures
        r == valid_id(s@),
{
    let cs = chars_of(s);
    if cs.len() == 0 || cs.len() > 128 {
        return false;
    }
    let mut i: usize = 0;
    while i < cs.len()
        invariant
            i <= cs.len(),
            cs@ == s@,
            forall|k: int| 0 <= k < i ==> is_id_char(#[trigger] s@[k]),
        decreases cs.len() - i,
    {
        let c = cs[i];
        if !(digit(c) || lower(c) || c == '.' || c == '-' || c == '_') {
            assert(!is_id_char(s@[i as int]));
            return false;
        }
        i = i + 1;
    }
    lower(cs[0]) || digit(cs[0])
}

/// The part of a version before a pre-release or build mark.
pub open spec fn version_core(s: Seq<char>) -> Seq<char> {
    before(before(s, '-'), '+')
}

/// A run of one digit or more.
pub open spec fn is_numeral(s: Seq<char>) -> bool {
    s.len() > 0 && all_digits(s)
}

/// A version: two numerals or more with dots between them, then nothing, or a dash
/// or a plus and anything after it.
pub open spec fn valid_version(s: Seq<char>) -> bool {
    let parts = pieces(version_core(s), '.');
    &&& parts.len() >= 2
    &&& forall|k: int| 0 <= k < parts.len() ==> is_numeral(#[trigger] parts[k])
}

/// Whether a text is one digit or more.
fn numeral(s: &str) -> (r: bool)
    ensures
        r == is_numeral(s@),
{
    let cs = chars_of(s);
    if cs.len() == 0 {
        return false;
    }
    let mut i: usize = 0;
    while i < cs.len()
        invariant
            i <= cs.len(),
            cs@ == s@,
            forall|k: int| 0 <= k < i ==> is_digit(#[trigger] s@[k]),
        decreases cs.len() - i,
    {
        if !digit(cs[i]) {
            assert(!is_digit(s@[i as int]));
            return false;
        }
        i = i + 1;
    }
    true
}

/// Whether a text is a version.
pub fn is_valid_version(s: &str) -> (r: bool)
    ensures
        r == valid_version(s@),
{
    let up_to_dash = text_before(s, '-');
    let core = text_before(up_to_dash.as_str(), '+');
    let parts = split(core.as_str(), '.');
    let ghost model = pieces(version_core(s@), '.');
    assert(texts(parts@).len() == parts@.len());
    if parts.len() < 2 {
        return false;
    }
    let mut i: usize = 0;
    while i < parts.len()
        invariant
            i <= parts.len(),
            texts(parts@) == model,
            model == pieces(version_core(s@), '.'),
            forall|k: int| 0 <= k < i ==> is_numeral(#[trigger] model[k]),
        decreases parts.len() - i,
    {
        assert(model[i as int] == parts@[i as int]@);
        if !numeral(parts[i].as_str()) {
            assert(!is_numeral(model[i as int]));
            return false;
        }
        i = i + 1;
    }
    true
}

// ---------------------------------------------------------------------------
// Laws
// ---------------------------------------------------------------------------

/// A package id that was made of a name holds no space.
pub proof fn law_package_id_has_no_space(s: Seq<char>)
    ensures
        !package_id(s).contains(' '),
{
}

/// The ends of a trimmed text are no white space.
proof fn lemma_trimmed_ends(s: Seq<char>)
    ensures
        trimmed(s).len() > 0 ==> !is_white(trimmed(s)[0]) && !is_white(trimmed(s).last()),
{
    lemma_trim_start_end(s);
    lemma_trim_end_end(trim_start(s));
    lemma_trim_end_part(trim_start(s));
}

proof fn lemma_trim_start_end(s: Seq<char>)
    ensures
        trim_start(s).len() > 0 ==> !is_white(trim_start(s)[0]),
    decreases s.len(),
{
    if s.len() > 0 && is_white(s[0]) {
        lemma_trim_start_end(s.drop_first());
    }
}

proof fn lemma_trim_end_end(s: Seq<char>)
    ensures
        trim_end(s).len() > 0 ==> !is_white(trim_end(s).last()),
    decreases s.len(),
{
    if s.len() > 0 && is_white(s.last()) {
        lemma_trim_end_end(s.drop_last());
    }
}

/// A text that was trimmed has nothing more to trim.
pub proof fn lemma_trimmed_twice(s: Seq<char>)
    ensures
        trimmed(trimmed(s)) == trimmed(s),
{
    lemma_trimmed_ends(s);
}

/// The package id that was made of an ASCII name is ASCII, without a space, a capital or
/// white space at its ends; and it is the package id that is made of it.
pub proof fn law_package_id_is_stable(s: Seq<char>)
    requires
        is_ascii_chars(s),
    ensures
        is_ascii_chars(ascii_package_id(s)),
        forall|k: int|
            0 <= k < ascii_package_id(s).len() ==> #[trigger] ascii_package_id(s)[k] != ' '
                && !is_upper(ascii_package_id(s)[k]),
        trimmed(ascii_package_id(s)) == ascii_package_id(s),
        ascii_package_id(ascii_package_id(s)) == ascii_package_id(s),
{
    let t = trimmed(s);
    let r = ascii_package_id(s);
    lemma_trimmed_part(s);
    lemma_trimmed_ends(s);
    assert(is_ascii_chars(t));
    assert forall|k: int| 0 <= k < r.len() implies #[trigger] r[k] != ' ' && !is_upper(r[k])
        && (r[k] as int) < 128 && (is_white(r[k]) ==> is_white(t[k])) by {
        assert(s.contains(t[k]));
    }
    assert(is_ascii_chars(r));
    assert(trimmed(r) == r);
    assert(ascii_lowercase(r) =~= r);
    assert(replaced(r, ' ', '.') =~= r);
}

/// A directory name holds nothing but characters that a directory name keeps, one
/// for each character of the package id.
pub proof fn law_dir_name_is_safe(s: Seq<char>)
    ensures
        dir_name(s).len() == s.len(),
        forall|k: int| 0 <= k < s.len() ==> is_dir_char(#[trigger] dir_name(s)[k]),
{
}

/// The directory of a package is named like the package: of a package id, the
/// directory name is the id itself.
pub proof fn law_dir_name_of_id(id: Seq<char>)
    requires
        valid_id(id),
    ensures
        dir_name(id) == id,
{
    assert(dir_name(id) =~= id);
}

/// A directory name stands for itself.
pub proof fn law_dir_name_is_stable(s: Seq<char>)
    ensures
        dir_name(dir_name(s)) == dir_name(s),
{
    assert(dir_name(dir_name(s)) =~= dir_name(s));
}

/// Trimming takes white space away at the ends and nothing else: the trimmed text stands
/// in the text between white space, and starts and ends with something else.
pub proof fn law_trimming_takes_white_space_alone(s: Seq<char>)
    ensures
        exists|i: int, j: int| #[trigger] is_trimmed_at(s, i, j),
        trimmed(s).len() > 0 ==> !is_white(trimmed(s)[0]) && !is_white(trimmed(s).last()),
{
    let t = trim_start(s);
    let i = s.len() - t.len();
    let j = i + trimmed(s).len();
    lemma_trimmed_ends(s);
    lemma_trim_start_part(s);
    lemma_trim_end_part(t);
    lemma_trim_start_white(s);
    lemma_trim_end_white(t);
    assert(trimmed(s) =~= s.subrange(i, j));
    assert forall|k: int| j <= k < s.len() implies is_white(#[trigger] s[k]) by {
        assert(t[k - i] == s[k]);
    }
    assert(is_trimmed_at(s, i, j));
}

/// Whether the trimmed text stands between two places, with white space around it.
pub open spec fn is_trimmed_at(s: Seq<char>, i: int, j: int) -> bool {
    &&& 0 <= i <= j <= s.len()
    &&& trimmed(s) == s.subrange(i, j)
    &&& forall|k: int| 0 <= k < i ==> is_white(#[trigger] s[k])
    &&& forall|k: int| j <= k < s.len() ==> is_white(#[trigger] s[k])
}

proof fn lemma_trim_start_white(s: Seq<char>)
    ensures
        forall|k: int| 0 <= k < s.len() - trim_start(s).len() ==> is_white(#[trigger] s[k]),
    decreases s.len(),
{
    if s.len() > 0 && is_white(s[0]) {
        let t = s.drop_first();
        lemma_trim_start_white(t);
        assert forall|k: int| 0 <= k < s.len() - trim_start(s).len() implies is_white(
            #[trigger] s[k],
        ) by {
            if k > 0 {
                assert(t[k - 1] == s[k]);
            }
        }
    }
}

proof fn lemma_trim_end_white(s: Seq<char>)
    ensures
        forall|k: int| trim_end(s).len() <= k < s.len() ==> is_white(#[trigger] s[k]),
    decreases s.len(),
{
    if s.len() > 0 && is_white(s.last()) {
        let t = s.drop_last();
        lemma_trim_end_white(t);
        assert forall|k: int| trim_end(s).len() <= k < s.len() implies is_white(
            #[trigger] s[k],
        ) by {
            if k < t.len() {
                assert(t[k] == s[k]);
            }
        }
    }
}

/// Package ids are made of lower case letters, digits, dots, dashes and underscores, from
/// a letter or a digit on: with one more such character an id is an id, up to 128 of
/// them, and with any other it is none.
pub proof fn law_package_ids_grow_by_their_characters(id: Seq<char>, c: char)
    ensures
        valid_id(seq![c]) <==> ('a' <= c <= 'z' || '0' <= c <= '9'),
        id.len() > 0 ==> (valid_id(id.push(c)) <==> valid_id(id) && id.len() < 128 && ('a' <= c
            <= 'z' || '0' <= c <= '9' || c == '.' || c == '-' || c == '_')),
        !valid_id(Seq::empty()),
{
    let longer = id.push(c);
    assert(seq![c][0] == c);
    if id.len() > 0 {
        assert(longer[0] == id[0]);
        assert(longer[id.len() as int] == c);
        if valid_id(longer) {
            assert forall|k: int| 0 <= k < id.len() implies is_id_char(#[trigger] id[k]) by {
                assert(longer[k] == id[k]);
            }
            assert(is_id_char(longer[id.len() as int]));
        }
        if valid_id(id) && is_id_char(c) && id.len() < 128 {
            assert forall|k: int| 0 <= k < longer.len() implies is_id_char(
                #[trigger] longer[k],
            ) by {
                if k < id.len() {
                    assert(longer[k] == id[k]);
                }
            }
        }
    }
}

/// Two numerals with a dot between them are a version, and so is a version with another
/// numeral behind a dot. A numeral alone is none. A mark behind a dash or a plus changes
/// nothing.
pub proof fn law_versions_are_numerals_with_dots(
    a: Seq<char>,
    b: Seq<char>,
    v: Seq<char>,
    mark: Seq<char>,
)
    requires
        a.len() > 0,
        all_digits(a),
        b.len() > 0,
        all_digits(b),
        !v.contains('-'),
        !v.contains('+'),
    ensures
        valid_version(a + "."@ + b),
        !valid_version(a),
        valid_version(v) ==> valid_version(v + "."@ + b),
        valid_version(v + "-"@ + mark) == valid_version(v),
        valid_version(v + "+"@ + mark) == valid_version(v),
{
    reveal_strlit(".");
    reveal_strlit("-");
    reveal_strlit("+");
    assert("."@ =~= seq!['.']);
    lemma_digits_are_plain(a);
    lemma_digits_are_plain(b);
    lemma_core_is_whole(a);
    lemma_core_is_whole(v);
    lemma_dotted(a, b);
    lemma_dotted(v, b);
    lemma_core_is_whole(a + "."@ + b);
    lemma_core_is_whole(v + "."@ + b);
    lemma_pieces_append(Seq::empty(), a, '.');
    assert(Seq::<char>::empty() + a =~= a);
    assert(pieces(a, '.') =~= seq![a]);
    assert(pieces(a + "."@ + b, '.') =~= seq![a, b]);
    assert(version_core(v + "-"@ + mark) == v) by {
        let s = v + "-"@ + mark;
        assert forall|k: int| 0 <= k < v.len() implies s[k] != '-' by {
            assert(s[k] == v[k]);
            assert(v.contains(v[k]));
        }
        assert(s[v.len() as int] == '-');
        lemma_before(s, '-', v.len() as int);
        assert(s.take(v.len() as int) =~= v);
    }
    assert(version_core(v + "+"@ + mark) == v) by {
        let s = v + "+"@ + mark;
        lemma_before_of_before(v, mark);
    }
    if valid_version(v) {
        let parts = pieces(v, '.');
        let more = pieces(v + "."@ + b, '.');
        assert(more =~= parts.push(b));
        assert forall|k: int| 0 <= k < more.len() implies is_numeral(#[trigger] more[k]) by {
            if k < parts.len() {
                assert(more[k] == parts[k]);
            }
        }
    }
}

/// Digits are neither dots nor marks.
proof fn lemma_digits_are_plain(s: Seq<char>)
    requires
        all_digits(s),
    ensures
        !s.contains('.'),
        !s.contains('-'),
        !s.contains('+'),
{
}

/// A version without a mark is its own core.
proof fn lemma_core_is_whole(s: Seq<char>)
    requires
        !s.contains('-'),
        !s.contains('+'),
    ensures
        version_core(s) == s,
        before(s, '+') == s,
{
    assert forall|k: int| 0 <= k < s.len() implies s[k] != '-' && s[k] != '+' by {
        assert(s.contains(s[k]));
    }
    lemma_before(s, '-', s.len() as int);
    lemma_before(s, '+', s.len() as int);
    assert(s.take(s.len() as int) =~= s);
}

/// A text with a dot and another one behind it has the pieces of both, and no marks where
/// neither has.
proof fn lemma_dotted(s: Seq<char>, b: Seq<char>)
    requires
        !b.contains('.'),
        !b.contains('-'),
        !b.contains('+'),
        !s.contains('-'),
        !s.contains('+'),
    ensures
        pieces(s + "."@ + b, '.') == pieces(s, '.').push(b),
        !(s + "."@ + b).contains('-'),
        !(s + "."@ + b).contains('+'),
{
    reveal_strlit(".");
    assert("."@ =~= seq!['.']);
    let front = s + "."@;
    assert(front.drop_last() =~= s);
    assert(pieces(front, '.') == pieces(s, '.').push(Seq::empty()));
    lemma_pieces_append(front, b, '.');
    assert(Seq::<char>::empty() + b =~= b);
    assert(pieces(s, '.').push(Seq::empty()).drop_last() =~= pieces(s, '.'));
    let whole = s + "."@ + b;
    assert forall|k: int| 0 <= k < whole.len() implies whole[k] != '-' && whole[k] != '+' by {
        if k < s.len() {
            assert(whole[k] == s[k] && s.contains(s[k]));
        } else if k > s.len() {
            assert(whole[k] == b[k - s.len() - 1] && b.contains(b[k - s.len() - 1]));
        }
    }
}

/// What stands before a plus is the core, whether or not a dash follows the plus.
proof fn lemma_before_of_before(v: Seq<char>, mark: Seq<char>)
    requires
        !v.contains('-'),
        !v.contains('+'),
    ensures
        version_core(v + "+"@ + mark) == v,
{
    reveal_strlit("+");
    let s = v + "+"@ + mark;
    assert forall|k: int| 0 <= k < v.len() implies s[k] != '-' && s[k] != '+' by {
        assert(s[k] == v[k]);
        assert(v.contains(v[k]));
    }
    lemma_before_prefix_kept(s, '-', (v.len() + 1) as int);
    let front = before(s, '-');
    assert forall|k: int| 0 <= k < v.len() implies front[k] != '+' by {
        assert(front[k] == s[k]);
    }
    assert(front[v.len() as int] == '+');
    lemma_before(front, '+', v.len() as int);
    assert(front.take(v.len() as int) =~= v);
}

/// What stands before a character starts with all that comes before it.
proof fn lemma_before_prefix_kept(s: Seq<char>, stop: char, n: int)
    requires
        0 <= n <= s.len(),
        forall|k: int| 0 <= k < n ==> s[k] != stop,
    ensures
        before(s, stop).len() >= n,
        forall|k: int| 0 <= k < n ==> #[trigger] before(s, stop)[k] == s[k],
    decreases n,
{
    if n > 0 {
        let t = s.drop_first();
        assert forall|k: int| 0 <= k < n - 1 implies t[k] != stop by {
            assert(t[k] == s[k + 1]);
        }
        lemma_before_prefix_kept(t, stop, n - 1);
        assert forall|k: int| 0 <= k < n implies #[trigger] before(s, stop)[k] == s[k] by {
            if k > 0 {
                assert(before(s, stop)[k] == before(t, stop)[k - 1]);
            }
        }
    }
}

/// A directory name differs from the package id only in characters that a directory name
/// does not keep, which are dashes in it.
pub proof fn law_dir_name_keeps_what_it_can(s: Seq<char>, k: int)
    requires
        0 <= k < s.len(),
    ensures
        dir_name(s).len() == s.len(),
        if ('a' <= s[k] <= 'z') || ('A' <= s[k] <= 'Z') || ('0' <= s[k] <= '9') || s[k] == '.'
            || s[k] == '-' || s[k] == '_' {
            dir_name(s)[k] == s[k]
        } else {
            dir_name(s)[k] == '-'
        },
{
}

} // verus!
