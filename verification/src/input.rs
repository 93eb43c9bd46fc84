use vstd::prelude::*;

verus! {

/// The widget an input is shown with.
#[derive(Clone, Copy, Debug, PartialEq, Eq, Structural)]
pub enum Render {
    LineEdit,
    TextEdit,
    ComboBox,
    Slider,
    SpinBox,
    CheckBox,
    Switch,
}

/// The rule an input's value is checked against.
#[derive(Clone, Copy, Debug, PartialEq, Eq, Structural)]
pub enum Checker {
    /// Any text.
    Text,
    /// One of the descriptions the input offers.
    TextRange,
    /// `true` or `false`.
    Boolean,
    /// A number.
    Number,
    /// A number within the input's bounds.
    NumberRange,
}

/// What `bool::from_str` accepts: exactly `true` or `false`.
pub open spec fn is_bool_text(value: Seq<char>) -> bool {
    value == seq!['t', 'r', 'u', 'e'] || value == seq!['f', 'a', 'l', 's', 'e']
}

/// The verdict of `checker` on `value`, where it needs no floating-point
/// number: `None` for `Number` and `NumberRange`. `reflect_keys` are the
/// descriptions the input offers.
pub open spec fn plain_verdict(checker: Checker, value: Seq<char>, reflect_keys: Seq<Seq<char>>) -> Option<bool> {
    match checker {
        Checker::Text => Some(true),
        Checker::Boolean => Some(is_bool_text(value)),
        Checker::TextRange => Some(reflect_keys.contains(value)),
        Checker::Number => None,
        Checker::NumberRange => None,
    }
}

/// Every checker's verdict, stated by itself: any text passes `Text`; a
/// value passes `TextRange` exactly when it is one of the offered
/// descriptions, whichever of them and wherever it stands; it passes
/// `Boolean` exactly when it reads `true` or `false`; the number checkers
/// give no verdict here.
pub proof fn lemma_plain_verdicts(value: Seq<char>, reflect_keys: Seq<Seq<char>>)
    ensures
        plain_verdict(Checker::Text, value, reflect_keys) == Some(true),
        plain_verdict(Checker::TextRange, value, reflect_keys) == Some(
            exists|k: int| 0 <= k < reflect_keys.len() && #[trigger] reflect_keys[k] == value,
        ),
        plain_verdict(Checker::Boolean, value, reflect_keys) == Some(
            value == seq!['t', 'r', 'u', 'e'] || value == seq!['f', 'a', 'l', 's', 'e'],
        ),
        plain_verdict(Checker::Number, value, reflect_keys) is None,
        plain_verdict(Checker::NumberRange, value, reflect_keys) is None,
{
    if reflect_keys.contains(value) {
        let k = choose|k: int| 0 <= k < reflect_keys.len() && reflect_keys[k] == value;
        assert(reflect_keys[k] == value);
    }
}

/// Offering more descriptions never turns a passing `TextRange` value away,
/// and the one just offered passes.
pub proof fn lemma_text_range_grows(value: Seq<char>, reflect_keys: Seq<Seq<char>>, key: Seq<char>)
    ensures
        plain_verdict(Checker::TextRange, value, reflect_keys) == Some(true) ==> plain_verdict(
            Checker::TextRange,
            value,
            reflect_keys.push(key),
        ) == Some(true),
        plain_verdict(Checker::TextRange, key, reflect_keys.push(key)) == Some(true),
        plain_verdict(Checker::TextRange, value, seq![key].add(reflect_keys)) == Some(
            value == key || plain_verdict(Checker::TextRange, value, reflect_keys) == Some(true),
        ),
{
    let grown = reflect_keys.push(key);
    assert(grown[reflect_keys.len() as int] == key);
    if reflect_keys.contains(value) {
        let k = choose|k: int| 0 <= k < reflect_keys.len() && reflect_keys[k] == value;
        assert(grown[k] == value);
    }
    let front = seq![key].add(reflect_keys);
    assert(front[0] == key);
    if reflect_keys.contains(value) {
        let k = choose|k: int| 0 <= k < reflect_keys.len() && reflect_keys[k] == value;
        assert(front[k + 1] == value);
    }
    if front.contains(value) && value != key {
        let k = choose|k: int| 0 <= k < front.len() && front[k] == value;
        assert(reflect_keys[k - 1] == value);
    }
}

fn is_bool_value(value: &str) -> (b: bool)
    ensures
        b == is_bool_text(value@),
{
    let chars = crate::text::chars_of(value);
    let t = vec!['t', 'r', 'u', 'e'];
    let f = vec!['f', 'a', 'l', 's', 'e'];
    crate::text::chars_equal(&chars, &t) || crate::text::chars_equal(&chars, &f)
}

/// Checks `value` against `checker` where no floating-point number is
/// involved; `None` leaves `Number` and `NumberRange` to the caller.
pub fn check_plain_value(checker: Checker, value: &str, reflect_keys: &Vec<String>) -> (r: Option<
    bool,
>)
    ensures
        r == plain_verdict(checker, value@, reflect_keys.deep_view()),
        checker == Checker::TextRange ==> (r == Some(true) <==> exists|k: int|
            0 <= k < reflect_keys@.len() && #[trigger] reflect_keys@[k]@ == value@),
{
    match checker {
        Checker::Text => Some(true),
        Checker::Boolean => Some(is_bool_value(value)),
        Checker::TextRange => {
            let owned = String::from_str(value);
            let ghost keys = reflect_keys.deep_view();
            let mut i: usize = 0;
            while i < reflect_keys.len()
                invariant
                    i <= reflect_keys@.len(),
                    checker == Checker::TextRange,
                    keys == reflect_keys.deep_view(),
                    owned@ == value@,
                    forall|k: int| 0 <= k < i ==> keys[k] != value@,
                decreases reflect_keys@.len() - i,
            {
                assert(keys[i as int] == reflect_keys@[i as int]@);
                if reflect_keys[i] == owned {
                    assert(keys[i as int] == value@);
                    assert(reflect_keys@[i as int]@ == value@);
                    assert(keys.contains(value@));
                    return Some(true);
                }
                i = i + 1;
            }
            assert(!keys.contains(value@));
            assert forall|k: int| 0 <= k < reflect_keys@.len() implies #[trigger] reflect_keys@[k]@
                != value@ by {
                assert(keys[k] == reflect_keys@[k]@);
            }
            Some(false)
        },
        Checker::Number => None,
        Checker::NumberRange => None,
    }
}

} // verus!
