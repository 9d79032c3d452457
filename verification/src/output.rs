//! What is printed for the outcome of one line.

use crate::json::{entries_view, in_quotes, kind_of, open_value, render_value, rendered, tree_of};
use crate::json::{Kind, Shape, Tree};
use crate::segment::{all_digits, digits_value, is_digit, step_of_token, Step};
use serde_json::Value;
use vstd::prelude::*;
use vstd::string::*;

verus! {

/// The display modes. They are independent of each other; where several
/// apply to one outcome, [`output`] says which one wins.
#[derive(Clone, Copy, Debug, PartialEq, Eq, Structural)]
pub struct Flags {
    /// Print the number of items of an array or of entries of an object.
    pub count: bool,
    /// Print the positions of an array or the keys of an object.
    pub print_keys: bool,
    /// Print a blank line where there is no outcome.
    pub keep_invalid: bool,
    /// Print a string without its outer quotes.
    pub remove_quotes: bool,
}

/// The character that stands for a number below ten.
pub open spec fn digit_char(d: nat) -> char {
    if d == 0 {
        '0'
    } else if d == 1 {
        '1'
    } else if d == 2 {
        '2'
    } else if d == 3 {
        '3'
    } else if d == 4 {
        '4'
    } else if d == 5 {
        '5'
    } else if d == 6 {
        '6'
    } else if d == 7 {
        '7'
    } else if d == 8 {
        '8'
    } else {
        '9'
    }
}

/// The decimal digits of a number, without leading zeros.
pub open spec fn decimal(n: nat) -> Seq<char>
    decreases n,
{
    if n < 10 {
        seq![digit_char(n)]
    } else {
        decimal(n / 10).push(digit_char(n % 10))
    }
}

/// What stands between two parts of a list: a comma and a space.
pub open spec fn separator() -> Seq<char> {
    seq![',', ' ']
}

/// The parts of a list, in order, with a separator between neighbours. The
/// empty list gives the empty text.
pub open spec fn joined(parts: Seq<Seq<char>>) -> Seq<char>
    decreases parts.len(),
{
    if parts.len() == 0 {
        Seq::empty()
    } else if parts.len() == 1 {
        parts[0]
    } else {
        joined(parts.drop_last()) + separator() + parts.last()
    }
}

/// The positions of an array of `n` items, each in decimal: 0, 1, up to
/// `n - 1`.
pub open spec fn index_parts(n: nat) -> Seq<Seq<char>> {
    Seq::new(n, |i: int| decimal(i as nat))
}

/// The keys of an object's entries, in stored order.
pub open spec fn key_parts(entries: Seq<(Seq<char>, Tree)>) -> Seq<Seq<char>> {
    Seq::new(entries.len(), |i: int| entries[i].0)
}

/// A text without its outer pair of double quotes. Only a text that both
/// begins and ends with a double quote, in two different places, loses them;
/// any other text stays as it is.
pub open spec fn strip_quotes(s: Seq<char>) -> Seq<char> {
    if s.len() >= 2 && s[0] == '"' && s.last() == '"' {
        s.subrange(1, s.len() - 1)
    } else {
        s
    }
}

/// How a document is shown.
#[derive(Clone, Copy, Debug, PartialEq, Eq, Structural)]
pub enum Mode {
    /// The number of items or entries.
    Count,
    /// The positions or keys.
    Keys,
    /// The rendering without its outer quotes.
    Unquoted,
    /// The rendering as it is.
    Rendered,
}

/// How a document of a given kind is shown under given flags. For an array
/// or an object `count` comes before `print_keys`, and both come before the
/// rendering; `remove_quotes` touches strings only; nothing touches the
/// other kinds.
pub open spec fn mode_of(kind: Kind, flags: Flags) -> Mode {
    match kind {
        Kind::Array | Kind::Object => if flags.count {
            Mode::Count
        } else if flags.print_keys {
            Mode::Keys
        } else {
            Mode::Rendered
        },
        Kind::String => if flags.remove_quotes {
            Mode::Unquoted
        } else {
            Mode::Rendered
        },
        _ => Mode::Rendered,
    }
}

/// The number of items of an array or of entries of an object; 0 for any
/// other document.
pub open spec fn size(t: Tree) -> nat {
    match t {
        Tree::Array(items) => items.len(),
        Tree::Object(entries) => entries.len(),
        _ => 0,
    }
}

/// What names the children of a document: the positions of an array, the
/// keys of an object, nothing for any other document.
pub open spec fn labels(t: Tree) -> Seq<Seq<char>> {
    match t {
        Tree::Array(items) => index_parts(items.len()),
        Tree::Object(entries) => key_parts(entries),
        _ => Seq::empty(),
    }
}

/// What is printed for an outcome: `None` for no line at all, otherwise the
/// text of the one line. Where there is no document, `keep_invalid` decides
/// between a blank line and no line. A document without children, asked for
/// its keys, gives no line.
pub open spec fn output(result: Option<Tree>, flags: Flags) -> Option<Seq<char>> {
    match result {
        None => if flags.keep_invalid {
            Some(Seq::empty())
        } else {
            None
        },
        Some(t) => match mode_of(t.kind(), flags) {
            Mode::Count => Some(decimal(size(t))),
            Mode::Keys => if size(t) == 0 {
                None
            } else {
                Some(joined(labels(t)))
            },
            Mode::Unquoted => Some(strip_quotes(rendered(t))),
            Mode::Rendered => Some(rendered(t)),
        },
    }
}

/// Whether a line is what a string's rendering holds between its outer
/// quotes. This is asked only of a string shown with `remove_quotes`; of any
/// other outcome it holds.
pub open spec fn unquoted(result: Option<Tree>, flags: Flags, line: Option<Seq<char>>) -> bool {
    match result {
        Some(t) => t is String && flags.remove_quotes ==> match line {
            Some(text) => rendered(t) == seq!['"'] + text + seq!['"'],
            None => false,
        },
        None => true,
    }
}

/// The text of a line, where there is one.
pub open spec fn line_text(line: Option<String>) -> Option<Seq<char>> {
    match line {
        Some(text) => Some(text@),
        None => None,
    }
}

/// The document of an outcome, where there is one.
pub open spec fn result_tree(result: Option<Value>) -> Option<Tree> {
    match result {
        Some(v) => Some(tree_of(v)),
        None => None,
    }
}

/// The one-character text of a number below ten.
fn digit_text(d: usize) -> (text: &'static str)
    requires
        d < 10,
    ensures
        text@ == seq![digit_char(d as nat)],
{
    proof {
        reveal_strlit("0");
        reveal_strlit("1");
        reveal_strlit("2");
        reveal_strlit("3");
        reveal_strlit("4");
        reveal_strlit("5");
        reveal_strlit("6");
        reveal_strlit("7");
        reveal_strlit("8");
        reveal_strlit("9");
    }
    let text: &'static str = if d == 0 {
        "0"
    } else if d == 1 {
        "1"
    } else if d == 2 {
        "2"
    } else if d == 3 {
        "3"
    } else if d == 4 {
        "4"
    } else if d == 5 {
        "5"
    } else if d == 6 {
        "6"
    } else if d == 7 {
        "7"
    } else if d == 8 {
        "8"
    } else {
        "9"
    };
    assert(text@ =~= seq![digit_char(d as nat)]);
    text
}

/// Writes a number in decimal.
pub fn decimal_text(n: usize) -> (text: String)
    ensures
        text@ == decimal(n as nat),
    decreases n,
{
    if n < 10 {
        digit_text(n).to_owned()
    } else {
        let mut text: String = decimal_text(n / 10);
        text.append(digit_text(n % 10));
        proof {
            assert(text@ =~= decimal((n / 10) as nat).push(digit_char((n % 10) as nat)));
        }
        text
    }
}

/// Lists the positions of an array of `n` items.
pub fn list_indices(n: usize) -> (text: String)
    ensures
        text@ == joined(index_parts(n as nat)),
{
    let mut text: String = String::new();
    let mut i: usize = 0;
    while i < n
        invariant
            0 <= i <= n,
            text@ == joined(index_parts(i as nat)),
        decreases n - i,
    {
        proof {
            let next = index_parts((i + 1) as nat);
            assert(next.drop_last() =~= index_parts(i as nat));
            assert(next.last() == decimal(i as nat));
            reveal_strlit(", ");
            assert(", "@ =~= separator());
        }
        if i > 0 {
            text.append(", ");
        }
        let part: String = decimal_text(i);
        text.append(part.as_str());
        proof {
            if i == 0 {
                assert(text@ =~= decimal(0));
            }
        }
        i = i + 1;
    }
    text
}

/// Lists the keys of an object's entries, in stored order.
pub fn list_keys(entries: &Vec<(String, Value)>) -> (text: String)
    ensures
        text@ == joined(key_parts(entries_view(entries@))),
{
    let ghost all = key_parts(entries_view(entries@));
    let n: usize = entries.len();
    let mut text: String = String::new();
    let mut i: usize = 0;
    proof {
        assert(all.take(0).len() == 0);
    }
    while i < n
        invariant
            n == entries@.len(),
            all == key_parts(entries_view(entries@)),
            0 <= i <= n,
            text@ == joined(all.take(i as int)),
        decreases n - i,
    {
        proof {
            let next = all.take(i + 1);
            assert(next.drop_last() =~= all.take(i as int));
            assert(next.last() == entries@[i as int].0@);
            reveal_strlit(", ");
            assert(", "@ =~= separator());
        }
        if i > 0 {
            text.append(", ");
        }
        text.append(entries[i].0.as_str());
        proof {
            if i == 0 {
                assert(text@ =~= entries@[0].0@);
            }
        }
        i = i + 1;
    }
    proof {
        assert(all.take(n as int) =~= all);
    }
    text
}

/// Takes the outer pair of double quotes off a text that has one.
pub fn strip_outer_quotes(text: &str) -> (stripped: String)
    ensures
        stripped@ == strip_quotes(text@),
{
    let n: usize = text.unicode_len();
    if n >= 2 && text.get_char(0) == '"' && text.get_char(n - 1) == '"' {
        text.substring_char(1, n - 1).to_owned()
    } else {
        text.to_owned()
    }
}

/// A text between two double quotes is its stripped form between two double
/// quotes.
pub proof fn lemma_quotes_restored(s: Seq<char>)
    requires
        in_quotes(s),
    ensures
        seq!['"'] + strip_quotes(s) + seq!['"'] == s,
{
    assert(seq!['"'] + strip_quotes(s) + seq!['"'] =~= s);
}

/// Picks how a document of a given kind is shown under given flags.
pub fn pick_mode(kind: Kind, flags: &Flags) -> (mode: Mode)
    ensures
        mode == mode_of(kind, *flags),
{
    match kind {
        Kind::Array | Kind::Object => {
            if flags.count {
                Mode::Count
            } else if flags.print_keys {
                Mode::Keys
            } else {
                Mode::Rendered
            }
        },
        Kind::String => {
            if flags.remove_quotes {
                Mode::Unquoted
            } else {
                Mode::Rendered
            }
        },
        _ => Mode::Rendered,
    }
}

/// Counts the children of an opened value.
pub fn count_children(shape: &Shape) -> (n: usize)
    ensures
        n == size(shape.tree()),
{
    match shape {
        Shape::Array(items) => items.len(),
        Shape::Object(entries) => entries.len(),
        _ => 0,
    }
}

/// Lists what names the children of an opened value.
pub fn list_children(shape: &Shape) -> (text: String)
    ensures
        text@ == joined(labels(shape.tree())),
{
    match shape {
        Shape::Array(items) => list_indices(items.len()),
        Shape::Object(entries) => list_keys(entries),
        _ => String::new(),
    }
}

/// Decides what to print for a document.
pub fn format_value(value: Value, flags: &Flags) -> (line: Option<String>)
    ensures
        line_text(line) == output(Some(tree_of(value)), *flags),
        unquoted(Some(tree_of(value)), *flags, line_text(line)),
{
    match pick_mode(kind_of(&value), flags) {
        Mode::Count => {
            let shape: Shape = open_value(value);
            Some(decimal_text(count_children(&shape)))
        },
        Mode::Keys => {
            let shape: Shape = open_value(value);
            if count_children(&shape) == 0 {
                None
            } else {
                Some(list_children(&shape))
            }
        },
        Mode::Unquoted => {
            let text: String = render_value(&value);
            proof {
                lemma_quotes_restored(text@);
            }
            Some(strip_outer_quotes(text.as_str()))
        },
        Mode::Rendered => Some(render_value(&value)),
    }
}

/// Decides what to print for the outcome of a line: `None` for no line,
/// otherwise the text of the line, without its line end.
pub fn format_result(result: Option<Value>, flags: &Flags) -> (line: Option<String>)
    ensures
        line_text(line) == output(result_tree(result), *flags),
        unquoted(result_tree(result), *flags, line_text(line)),
{
    match result {
        None => {
            if flags.keep_invalid {
                Some(String::new())
            } else {
                None
            }
        },
        Some(value) => format_value(value, flags),
    }
}

/// The order in which the flags are looked at: `count` decides for arrays
/// and objects whatever else is set, `print_keys` decides for them where
/// `count` is not set, `remove_quotes` decides for strings alone, and
/// `keep_invalid` plays no part once there is a document.
pub proof fn law_precedence(t: Tree, flags: Flags)
    ensures
        (t is Array || t is Object) && flags.count ==> mode_of(t.kind(), flags) == Mode::Count,
        (t is Array || t is Object) && !flags.count && flags.print_keys ==> mode_of(
            t.kind(),
            flags,
        ) == Mode::Keys,
        (t is Array || t is Object) && !flags.count && !flags.print_keys ==> mode_of(
            t.kind(),
            flags,
        ) == Mode::Rendered,
        t is String ==> mode_of(t.kind(), flags) == if flags.remove_quotes {
            Mode::Unquoted
        } else {
            Mode::Rendered
        },
        t is Null || t is Bool || t is Number ==> output(Some(t), flags) == Some(rendered(t)),
        output(Some(t), flags) == output(
            Some(t),
            Flags { keep_invalid: !flags.keep_invalid, ..flags },
        ),
{
}

/// With `count` set, an array or an object is printed as the decimal number
/// of its items or entries, whatever the other flags say.
pub proof fn law_count(t: Tree, flags: Flags)
    requires
        flags.count,
    ensures
        t matches Tree::Array(items) ==> output(Some(t), flags) == Some(decimal(items.len())),
        t matches Tree::Object(entries) ==> output(Some(t), flags) == Some(
            decimal(entries.len()),
        ),
{
}

/// The decimal text of a number is one or more digits that spell the number.
pub proof fn law_decimal_spells(n: nat)
    ensures
        decimal(n).len() >= 1,
        all_digits(decimal(n)),
        digits_value(decimal(n)) == n,
    decreases n,
{
    if n < 10 {
        let s = decimal(n);
        assert(s.len() == 1);
        assert(s.drop_last().len() == 0);
        assert(digits_value(s.drop_last()) == 0);
    } else {
        law_decimal_spells(n / 10);
        let head = decimal(n / 10);
        let s = head.push(digit_char(n % 10));
        assert(s.drop_last() =~= head);
        assert forall|i: int| 0 <= i < s.len() implies is_digit(#[trigger] s[i]) by {
            if i < head.len() {
                assert(s[i] == head[i]);
            }
        }
    }
}

/// The decimal text of a position reads back as that position: what is
/// listed for an array can be used as a token of a path.
pub proof fn law_position_reads_back(n: nat)
    requires
        n <= usize::MAX,
    ensures
        step_of_token(decimal(n)) == Step::Index(decimal(n), n),
{
    law_decimal_spells(n);
}

/// With `print_keys` set and `count` not, an array without items and an
/// object without entries print no line at all, and every other array or
/// object prints its positions or keys.
pub proof fn law_keys(t: Tree, flags: Flags)
    requires
        flags.print_keys,
        !flags.count,
    ensures
        output(Some(Tree::Array(Seq::empty())), flags) is None,
        output(Some(Tree::Object(Seq::empty())), flags) is None,
        t matches Tree::Array(items) ==> (items.len() > 0 ==> output(Some(t), flags) == Some(
            joined(index_parts(items.len())),
        )),
        t matches Tree::Object(entries) ==> (entries.len() > 0 ==> output(Some(t), flags)
            == Some(joined(key_parts(entries)))),
{
}

/// A text between two double quotes loses exactly these two: what stood
/// between them is left as it was, inner quotes included.
pub proof fn law_strip_quotes(inner: Seq<char>)
    ensures
        strip_quotes(seq!['"'] + inner + seq!['"']) == inner,
{
    let s = seq!['"'] + inner + seq!['"'];
    assert(s.len() == inner.len() + 2);
    assert(s[0] == '"');
    assert(s.last() == '"');
    assert(s.subrange(1, s.len() - 1) =~= inner);
}

/// With `remove_quotes` set, a string is printed as its rendering without
/// the outer quotes; without the flag, as its rendering.
pub proof fn law_remove_quotes(s: Seq<char>, flags: Flags)
    ensures
        flags.remove_quotes ==> output(Some(Tree::String(s)), flags) == Some(
            strip_quotes(rendered(Tree::String(s))),
        ),
        !flags.remove_quotes ==> output(Some(Tree::String(s)), flags) == Some(
            rendered(Tree::String(s)),
        ),
{
}

/// Where there is no outcome, `keep_invalid` alone decides: one blank line
/// with it, no line without it.
pub proof fn law_no_outcome(flags: Flags)
    ensures
        flags.keep_invalid ==> output(None, flags) == Some(Seq::<char>::empty()),
        !flags.keep_invalid ==> output(None, flags) is None,
{
}

} // verus!
