//! Paths and file names as text.
//!
//! A path is a sequence of characters in which `/` separates components.
//! Everything here is a function of that text alone: nothing looks at a disk.

use vstd::prelude::*;
use vstd::std_specs::iter::IteratorSpec;

verus! {

/// Where the run of non-separator characters that ends `path` begins:
/// one past the last `/`, or `0` where `path` holds none.
pub open spec fn component_start(path: Seq<char>) -> int
    decreases path.len(),
{
    if path.len() == 0 || path.last() == '/' {
        path.len() as int
    } else {
        component_start(path.drop_last())
    }
}

/// What follows the last `/` of `path` (all of `path` where it holds none).
pub open spec fn trailing_component(path: Seq<char>) -> Seq<char> {
    path.skip(component_start(path))
}

/// The file name of `path`: its last component, where trailing separators and
/// components that are a single `.` do not count. A path that ends in `..`,
/// and one with no component left, has no file name.
pub open spec fn final_component(path: Seq<char>) -> Option<Seq<char>>
    decreases path.len(),
{
    if path.len() == 0 {
        None
    } else if path.last() == '/' || trailing_component(path) == seq!['.'] {
        final_component(path.drop_last())
    } else if trailing_component(path) == seq!['.', '.'] {
        None
    } else {
        Some(trailing_component(path))
    }
}

/// The index of the last `.` in `name`, or `-1` where it holds none.
pub open spec fn last_dot(name: Seq<char>) -> int
    decreases name.len(),
{
    if name.len() == 0 {
        -1
    } else if name.last() == '.' {
        name.len() - 1
    } else {
        last_dot(name.drop_last())
    }
}

/// A name splits into stem and extension at its last `.`, unless that dot
/// opens the name or the name is `..`.
pub open spec fn splits(name: Seq<char>) -> bool {
    last_dot(name) > 0 && name != seq!['.', '.']
}

/// What follows the last `.` of `name`, where `name` splits.
pub open spec fn extension_token(name: Seq<char>) -> Option<Seq<char>> {
    if splits(name) {
        Some(name.skip(last_dot(name) + 1))
    } else {
        None
    }
}

/// What precedes the last `.` of `name`; all of `name` where it does not split.
pub open spec fn stem(name: Seq<char>) -> Seq<char> {
    if splits(name) {
        name.take(last_dot(name))
    } else {
        name
    }
}

/// The extension of the file that `path` names, if it has one.
pub open spec fn extension_of(path: Seq<char>) -> Option<Seq<char>> {
    match final_component(path) {
        Some(name) => extension_token(name),
        None => None,
    }
}

/// A hidden name begins with a dot.
pub open spec fn hidden(name: Seq<char>) -> bool {
    name.len() > 0 && name[0] == '.'
}

/// `child` placed under `base`: a `child` that begins with `/` stands alone,
/// and a `/` is put between the two unless `base` is empty or ends with one.
pub open spec fn joined(base: Seq<char>, child: Seq<char>) -> Seq<char> {
    if child.len() > 0 && child[0] == '/' {
        child
    } else if base.len() == 0 || base.last() == '/' {
        base + child
    } else {
        base + seq!['/'] + child
    }
}

/// The character that writes the digit `d`.
pub open spec fn digit_char(d: nat) -> char {
    if d == 0 {
        '0'
    } else if d == 1 {
        '1'
    } else if d == 2 {
        '2'
    } else if d == 3 {
        '3'
    } else if d == 4 {
        '4'
    } else if d == 5 {
        '5'
    } else if d == 6 {
        '6'
    } else if d == 7 {
        '7'
    } else if d == 8 {
        '8'
    } else {
        '9'
    }
}

/// `n` written in base ten, without leading zeros.
pub open spec fn decimal_digits(n: nat) -> Seq<char>
    decreases n,
{
    if n < 10 {
        seq![digit_char(n)]
    } else {
        decimal_digits(n / 10).push(digit_char(n % 10))
    }
}

/// The dot and extension that close `name`, or nothing where it has no extension.
pub open spec fn dot_suffix(name: Seq<char>) -> Seq<char> {
    match extension_token(name) {
        Some(token) => seq!['.'] + token,
        None => Seq::empty(),
    }
}

/// `name` with the counter `k` set between stem and extension: `stem_k.ext`.
pub open spec fn numbered(name: Seq<char>, k: nat) -> Seq<char> {
    stem(name) + seq!['_'] + decimal_digits(k) + dot_suffix(name)
}

/// A file name: not empty, without a separator, and neither `.` nor `..`.
pub open spec fn is_file_name(name: Seq<char>) -> bool {
    &&& name.len() > 0
    &&& forall|i: int| 0 <= i < name.len() ==> name[i] != '/'
    &&& name != seq!['.']
    &&& name != seq!['.', '.']
}

/// The characters of `text`, in order.
pub fn characters(text: &str) -> (chars: Vec<char>)
    ensures
        chars@ == text@,
{
    let mut chars: Vec<char> = Vec::new();
    for c in it: text.chars()
        invariant
            it.seq() == text@,
            chars@ == text@.take(it.index() as int),
    {
        chars.push(c);
    }
    chars
}

/// A run without separators that starts at the front or behind a separator is
/// the trailing component.
pub proof fn lemma_component_start(path: Seq<char>, start: int)
    requires
        0 <= start <= path.len(),
        start == 0 || path[start - 1] == '/',
        forall|i: int| start <= i < path.len() ==> path[i] != '/',
    ensures
        component_start(path) == start,
    decreases path.len() - start,
{
    if start < path.len() {
        lemma_component_start(path.drop_last(), start);
    }
}

/// The last dot of `name` is at `dot` where a dot stands there and none behind it.
pub proof fn lemma_last_dot(name: Seq<char>, dot: int)
    requires
        -1 <= dot < name.len(),
        dot >= 0 ==> name[dot] == '.',
        forall|i: int| dot < i < name.len() ==> name[i] != '.',
    ensures
        last_dot(name) == dot,
    decreases name.len(),
{
    if name.len() > 0 && dot < name.len() - 1 {
        lemma_last_dot(name.drop_last(), dot);
    }
}

/// The file name of `path`, as [`final_component`] defines it.
pub fn file_name(path: &str) -> (name: Option<String>)
    ensures
        name.deep_view() == final_component(path@),
{
    let chars = characters(path);
    let mut end: usize = chars.len();
    proof {
        assert(path@.take(end as int) == path@);
    }
    while end > 0
        invariant
            chars@ == path@,
            end <= chars.len(),
            final_component(path@) == final_component(path@.take(end as int)),
        decreases end,
    {
        let ghost head = path@.take(end as int);
        if chars[end - 1] != '/' {
            let mut start: usize = end - 1;
            while start > 0 && chars[start - 1] != '/'
                invariant
                    chars@ == path@,
                    start < end <= chars.len(),
                    forall|i: int| start <= i < end ==> path@[i] != '/',
                decreases start,
            {
                start -= 1;
            }
            proof {
                lemma_component_start(head, start as int);
                assert(trailing_component(head) == path@.subrange(start as int, end as int));
            }
            let single = end - start == 1 && chars[start] == '.';
            let double = end - start == 2 && chars[start] == '.' && chars[start + 1] == '.';
            proof {
                let last = trailing_component(head);
                assert(single <==> last == seq!['.']) by {
                    if single {
                        assert(last =~= seq!['.']);
                    }
                    if last == seq!['.'] {
                        assert(last.len() == 1);
                        assert(last[0] == '.');
                    }
                }
                assert(double <==> last == seq!['.', '.']) by {
                    if double {
                        assert(last =~= seq!['.', '.']);
                    }
                    if last == seq!['.', '.'] {
                        assert(last.len() == 2);
                        assert(last[0] == '.');
                        assert(last[1] == '.');
                    }
                }
            }
            if double {
                return None;
            }
            if !single {
                let name = path.substring_char(start, end).to_owned();
                return Some(name);
            }
        }
        proof {
            assert(head.drop_last() == path@.take(end - 1));
        }
        end -= 1;
    }
    proof {
        assert(path@.take(0).len() == 0);
    }
    None
}

/// Where the last dot of `name` stands, if `name` splits there.
fn split_point(name: &str) -> (dot: Option<usize>)
    ensures
        dot is Some <==> splits(name@),
        dot matches Some(at) ==> at == last_dot(name@) && 0 < at < name@.len(),
{
    let chars = characters(name);
    let mut at: usize = chars.len();
    while at > 0 && chars[at - 1] != '.'
        invariant
            chars@ == name@,
            at <= chars.len(),
            forall|i: int| at <= i < chars.len() ==> name@[i] != '.',
        decreases at,
    {
        at -= 1;
    }
    proof {
        lemma_last_dot(name@, at as int - 1);
    }
    if at <= 1 {
        return None;
    }
    if chars.len() == 2 && chars[0] == '.' {
        proof {
            assert(name@ =~= seq!['.', '.']);
        }
        return None;
    }
    proof {
        if name@ == seq!['.', '.'] {
            assert(name@.len() == 2);
            assert(name@[0] == '.');
        }
    }
    Some(at - 1)
}

/// The extension of a file name, as [`extension_token`] defines it.
pub fn extension(name: &str) -> (token: Option<String>)
    ensures
        token.deep_view() == extension_token(name@),
{
    match split_point(name) {
        Some(dot) => {
            let length = name.unicode_len();
            let token = name.substring_char(dot + 1, length).to_owned();
            proof {
                assert(name@.subrange(dot + 1, length as int) == name@.skip(dot + 1));
            }
            Some(token)
        },
        None => None,
    }
}

/// The stem of a file name, as [`stem`] defines it.
pub fn file_stem(name: &str) -> (text: String)
    ensures
        text@ == stem(name@),
{
    match split_point(name) {
        Some(dot) => {
            let text = name.substring_char(0, dot).to_owned();
            proof {
                assert(name@.subrange(0, dot as int) == name@.take(dot as int));
            }
            text
        },
        None => name.to_owned(),
    }
}

/// The extension of the file that `path` names, as [`extension_of`] defines it.
pub fn path_extension(path: &str) -> (token: Option<String>)
    ensures
        token.deep_view() == extension_of(path@),
{
    match file_name(path) {
        Some(name) => extension(name.as_str()),
        None => None,
    }
}

/// Whether `name` begins with a dot.
pub fn is_hidden(name: &str) -> (yes: bool)
    ensures
        yes == hidden(name@),
{
    name.unicode_len() > 0 && name.get_char(0) == '.'
}

/// `child` placed under `base`, as [`joined`] defines it.
pub fn join(base: &str, child: &str) -> (path: String)
    ensures
        path@ == joined(base@, child@),
{
    proof {
        reveal_strlit("/");
    }
    let base_length = base.unicode_len();
    if child.unicode_len() > 0 && child.get_char(0) == '/' {
        child.to_owned()
    } else if base_length == 0 || base.get_char(base_length - 1) == '/' {
        base.to_owned().concat(child)
    } else {
        base.to_owned().concat("/").concat(child)
    }
}

/// The one-character text that writes the digit `d`.
fn digit_text(d: u64) -> (text: &'static str)
    requires
        d < 10,
    ensures
        text@ == seq![digit_char(d as nat)],
{
    proof {
        reveal_strlit("0");
        reveal_strlit("1");
        reveal_strlit("2");
        reveal_strlit("3");
        reveal_strlit("4");
        reveal_strlit("5");
        reveal_strlit("6");
        reveal_strlit("7");
        reveal_strlit("8");
        reveal_strlit("9");
    }
    let text = if d == 0 {
        "0"
    } else if d == 1 {
        "1"
    } else if d == 2 {
        "2"
    } else if d == 3 {
        "3"
    } else if d == 4 {
        "4"
    } else if d == 5 {
        "5"
    } else if d == 6 {
        "6"
    } else if d == 7 {
        "7"
    } else if d == 8 {
        "8"
    } else {
        "9"
    };
    assert(text@ =~= seq![digit_char(d as nat)]);
    text
}

/// `n` written in base ten, as [`decimal_digits`] defines it.
pub fn decimal(n: u64) -> (text: String)
    ensures
        text@ == decimal_digits(n as nat),
    decreases n,
{
    if n < 10 {
        digit_text(n).to_owned()
    } else {
        let text = decimal(n / 10).concat(digit_text(n % 10));
        proof {
            assert(text@ =~= decimal_digits(n as nat / 10).push(digit_char(n as nat % 10)));
        }
        text
    }
}

/// `name` with the counter `k` before its extension, as [`numbered`] defines it.
pub fn numbered_name(name: &str, k: u64) -> (text: String)
    ensures
        text@ == numbered(name@, k as nat),
{
    proof {
        reveal_strlit("_");
        reveal_strlit(".");
    }
    let counter = decimal(k);
    let head = file_stem(name).concat("_").concat(counter.as_str());
    match extension(name) {
        Some(token) => {
            let text = head.concat(".").concat(token.as_str());
            proof {
                assert(text@ =~= numbered(name@, k as nat));
            }
            text
        },
        None => {
            proof {
                assert(head@ =~= numbered(name@, k as nat));
            }
            head
        },
    }
}

/// The trailing component of a path begins within the path, holds no
/// separator, and stands at the front or behind one.
pub proof fn lemma_trailing_component(path: Seq<char>)
    ensures
        0 <= component_start(path) <= path.len(),
        component_start(path) == 0 || path[component_start(path) - 1] == '/',
        forall|i: int| component_start(path) <= i < path.len() ==> path[i] != '/',
    decreases path.len(),
{
    if path.len() > 0 && path.last() != '/' {
        let head = path.drop_last();
        lemma_trailing_component(head);
        assert forall|i: int| component_start(path) <= i < path.len() implies path[i] != '/' by {
            if i < head.len() {
                assert(path[i] == head[i]);
            }
        }
    }
}

/// What [`final_component`] finds is a file name.
pub proof fn lemma_final_component_is_file_name(path: Seq<char>)
    ensures
        final_component(path) matches Some(name) ==> is_file_name(name),
    decreases path.len(),
{
    if path.len() > 0 {
        lemma_trailing_component(path);
        lemma_final_component_is_file_name(path.drop_last());
    }
}

/// The file name of a file name placed under a folder is that file name.
pub proof fn lemma_final_component_of_joined(base: Seq<char>, name: Seq<char>)
    requires
        is_file_name(name),
    ensures
        final_component(joined(base, name)) == Some(name),
{
    let path = joined(base, name);
    let start = path.len() - name.len();
    assert(path.skip(start) =~= name);
    lemma_component_start(path, start);
}

/// Two texts that do not begin with a separator and come to the same path
/// under one folder are the same text.
pub proof fn lemma_joined_injective(base: Seq<char>, a: Seq<char>, b: Seq<char>)
    requires
        a.len() == 0 || a[0] != '/',
        b.len() == 0 || b[0] != '/',
        joined(base, a) == joined(base, b),
    ensures
        a == b,
{
    let prefix = joined(base, Seq::empty());
    assert(joined(base, a) =~= prefix + a);
    assert(joined(base, b) =~= prefix + b);
    assert(a =~= (prefix + a).skip(prefix.len() as int));
    assert(b =~= (prefix + b).skip(prefix.len() as int));
}

/// The last dot of a name, where it has one, is within the name and is a dot;
/// no dot stands behind it.
pub proof fn lemma_last_dot_bounds(name: Seq<char>)
    ensures
        -1 <= last_dot(name) < name.len(),
        last_dot(name) >= 0 ==> name[last_dot(name)] == '.',
        forall|i: int| last_dot(name) < i < name.len() ==> name[i] != '.',
    decreases name.len(),
{
    if name.len() > 0 && name.last() != '.' {
        let head = name.drop_last();
        lemma_last_dot_bounds(head);
        assert forall|i: int| last_dot(name) < i < name.len() implies name[i] != '.' by {
            if i < head.len() {
                assert(name[i] == head[i]);
            }
        }
    }
}

/// Stem and dotted extension make up the name again.
pub proof fn lemma_stem_and_suffix(name: Seq<char>)
    ensures
        stem(name) + dot_suffix(name) == name,
{
    lemma_last_dot_bounds(name);
    assert(stem(name) + dot_suffix(name) =~= name);
}

/// A number written in base ten has at least one character, and all of them
/// are digits.
pub proof fn lemma_decimal_digits(n: nat)
    ensures
        decimal_digits(n).len() >= 1,
        forall|i: int|
            0 <= i < decimal_digits(n).len() ==> '0' <= #[trigger] decimal_digits(n)[i] <= '9',
    decreases n,
{
    if n >= 10 {
        lemma_decimal_digits(n / 10);
    }
}

/// Two numbers that are written alike in base ten are the same number.
pub proof fn lemma_decimal_injective(a: nat, b: nat)
    requires
        decimal_digits(a) == decimal_digits(b),
    ensures
        a == b,
    decreases a,
{
    lemma_decimal_digits(a / 10);
    lemma_decimal_digits(b / 10);
    if a >= 10 && b >= 10 {
        let x = decimal_digits(a / 10);
        let y = decimal_digits(b / 10);
        assert(x == x.push(digit_char(a % 10)).drop_last());
        assert(y == y.push(digit_char(b % 10)).drop_last());
        assert(digit_char(a % 10) == x.push(digit_char(a % 10)).last());
        assert(digit_char(b % 10) == y.push(digit_char(b % 10)).last());
        lemma_decimal_injective(a / 10, b / 10);
    } else if a < 10 && b < 10 {
        assert(seq![digit_char(a)][0] == digit_char(a));
        assert(seq![digit_char(b)][0] == digit_char(b));
    } else if a < 10 {
        assert(decimal_digits(a).len() == 1);
        assert(decimal_digits(b).len() == decimal_digits(b / 10).len() + 1);
    } else {
        assert(decimal_digits(b).len() == 1);
        assert(decimal_digits(a).len() == decimal_digits(a / 10).len() + 1);
    }
}

/// Two counters that give one name the same numbered name are the same counter.
pub proof fn lemma_numbered_injective(name: Seq<char>, j: nat, k: nat)
    requires
        numbered(name, j) == numbered(name, k),
    ensures
        j == k,
{
    let head = stem(name) + seq!['_'];
    let tail = dot_suffix(name);
    let a = decimal_digits(j);
    let b = decimal_digits(k);
    assert(numbered(name, j).len() == head.len() + a.len() + tail.len());
    assert(numbered(name, k).len() == head.len() + b.len() + tail.len());
    assert(a =~= numbered(name, j).subrange(head.len() as int, (head.len() + a.len()) as int));
    assert(b =~= numbered(name, k).subrange(head.len() as int, (head.len() + b.len()) as int));
    lemma_decimal_injective(j, k);
}

/// A numbered name is longer than the name it was made from, so it is another name.
pub proof fn lemma_numbered_differs(name: Seq<char>, k: nat)
    ensures
        numbered(name, k) != name,
{
    lemma_stem_and_suffix(name);
    lemma_decimal_digits(k);
    assert(name.len() == stem(name).len() + dot_suffix(name).len());
    assert(numbered(name, k).len() == stem(name).len() + 1 + decimal_digits(k).len()
        + dot_suffix(name).len());
}

/// A numbered name of a file name is a file name.
pub proof fn lemma_numbered_is_file_name(name: Seq<char>, k: nat)
    requires
        is_file_name(name),
    ensures
        is_file_name(numbered(name, k)),
{
    let text = numbered(name, k);
    let head = stem(name);
    let digits = decimal_digits(k);
    let tail = dot_suffix(name);
    lemma_stem_and_suffix(name);
    lemma_last_dot_bounds(name);
    lemma_decimal_digits(k);
    assert(text.len() == head.len() + 1 + digits.len() + tail.len());
    assert(text[head.len() as int] == '_');
    assert forall|i: int| 0 <= i < text.len() implies text[i] != '/' by {
        if i < head.len() {
            assert(text[i] == name[i]);
        } else if i == head.len() {
        } else if i < head.len() + 1 + digits.len() {
            assert(text[i] == digits[i - head.len() - 1]);
        } else {
            let at = i - head.len() - 1 - digits.len();
            assert(text[i] == tail[at]);
            assert(tail[at] == name[head.len() + at]);
        }
    }
}

} // verus!
