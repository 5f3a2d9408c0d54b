//! User interface decisions: which key a keypad scan means, how each purchase prompt answers a
//! key, which greeting is shown, and the texts of the purchase screens

use crate::article::{refreshed_articles, Articles};
use crate::time::{clock_date, Clock};
use crate::vereinsflieger::proto_articles::{Article as VereinsfliegerArticle, Date};
use crate::error::{kind_text, Error, ErrorKind};
use crate::nfc::Uid;
use crate::telemetry::Event;
use crate::user::{extra_uids, extra_users, refreshed_users, Users};
use crate::vereinsflieger::proto_user::User as VereinsfliegerUser;
use crate::util::{decimal_string, push_str};
use crate::text::{ascii_chars, decimal_digits};
use vstd::prelude::*;
use vstd::string::{StrSliceExecFns, StringSliceAdditionalSpecFns};

verus! {

// ---------------------------------------------------------------------------------------------
// Keypad
// ---------------------------------------------------------------------------------------------

/// Keys of a 3x4 matrix keypad, row by row:
/// `1 2 3` / `4 5 6` / `7 8 9` / `* 0 #`
pub open spec fn keys_3x4() -> Seq<char> {
    seq!['1', '2', '3', '4', '5', '6', '7', '8', '9', '*', '0', '#']
}

/// Keys of a 4x4 matrix keypad, row by row:
/// `1 2 3 A` / `4 5 6 B` / `7 8 9 C` / `* 0 # D`
pub open spec fn keys_4x4() -> Seq<char> {
    seq!['1', '2', '3', 'A', '4', '5', '6', 'B', '7', '8', '9', 'C', '*', '0', '#', 'D']
}

/// Key of a 3x4 matrix keypad with the given scancode
pub fn key_3x4(scancode: usize) -> (r: char)
    requires
        scancode < 12,
    ensures
        r == keys_3x4()[scancode as int],
{
    let keys: [char; 12] = ['1', '2', '3', '4', '5', '6', '7', '8', '9', '*', '0', '#'];
    assert(keys@ =~= keys_3x4());
    keys[scancode]
}

/// Key of a 4x4 matrix keypad with the given scancode
pub fn key_4x4(scancode: usize) -> (r: char)
    requires
        scancode < 16,
    ensures
        r == keys_4x4()[scancode as int],
{
    let keys: [char; 16] = [
        '1', '2', '3', 'A', '4', '5', '6', 'B', '7', '8', '9', 'C', '*', '0', '#', 'D',
    ];
    assert(keys@ =~= keys_4x4());
    keys[scancode]
}

/// Whether the key in row `y` and column `x` is pressed
pub open spec fn pressed(states: Seq<Seq<bool>>, y: int, x: int) -> bool {
    states[y][x]
}

/// Scancode of the first pressed key of a keypad scan, rows top to bottom and keys left to
/// right in each row: `y * cols + x` for the key in row `y` and column `x`. None if no key is
/// pressed (which happens when contacts bounce on release).
pub fn pressed_scancode(states: &[Vec<bool>], cols: usize) -> (r: Option<usize>)
    requires
        forall|y: int| 0 <= y < states@.len() ==> (#[trigger] states@[y])@.len() == cols,
        states@.len() * cols <= usize::MAX,
    ensures
        match r {
            Some(s) => exists|y: int, x: int|
                0 <= y < states@.len() && 0 <= x < cols && s == y * cols + x && states@[y]@[x]
                    && (forall|y2: int, x2: int|
                    0 <= y2 < states@.len() && 0 <= x2 < cols && (y2 < y || (y2 == y && x2 < x))
                        ==> !#[trigger] states@[y2]@[x2]),
            None => forall|y: int, x: int|
                0 <= y < states@.len() && 0 <= x < cols ==> !#[trigger] states@[y]@[x],
        },
{
    let mut y: usize = 0;
    while y < states.len()
        invariant
            y <= states@.len(),
            forall|y: int| 0 <= y < states@.len() ==> (#[trigger] states@[y])@.len() == cols,
            states@.len() * cols <= usize::MAX,
            forall|y2: int, x2: int|
                0 <= y2 < y && 0 <= x2 < cols ==> !#[trigger] states@[y2]@[x2],
        decreases states@.len() - y,
    {
        let row = &states[y];
        let mut x: usize = 0;
        while x < row.len()
            invariant
                y < states@.len(),
                x <= cols,
                row@ == states@[y as int]@,
                row@.len() == cols,
                forall|y: int| 0 <= y < states@.len() ==> (#[trigger] states@[y])@.len() == cols,
                states@.len() * cols <= usize::MAX,
                forall|y2: int, x2: int|
                    0 <= y2 < y && 0 <= x2 < cols ==> !#[trigger] states@[y2]@[x2],
                forall|x2: int| 0 <= x2 < x ==> !#[trigger] states@[y as int]@[x2],
            decreases cols - x,
        {
            if row[x] {
                assert((y + 1) * cols <= states@.len() * cols) by (nonlinear_arith)
                    requires
                        y + 1 <= states@.len(),
                ;
                assert(y * cols + x < (y + 1) * cols) by (nonlinear_arith)
                    requires
                        x < cols,
                ;
                let s = y * cols + x;
                assert(states@[y as int]@[x as int]);
                return Some(s);
            }
            x = x + 1;
        }
        y = y + 1;
    }
    None
}

// ---------------------------------------------------------------------------------------------
// Purchase prompts
// ---------------------------------------------------------------------------------------------

/// How a prompt answers a key
#[derive(Debug, PartialEq, Eq, Structural)]
pub enum KeyStep<T> {
    /// Ignore the key and wait for the next
    Ignore,
    /// The prompt is answered with this value
    Accept(T),
    /// The user cancelled
    Cancel,
}

/// Value of a digit key `1` to `9`
pub open spec fn digit_value(key: char) -> int {
    key as int - '0' as int
}

/// Whether the key is one of `1` to `9`
pub open spec fn is_nonzero_digit(key: char) -> bool {
    '1' <= key <= '9'
}

/// Value of a digit key `1` to `9`
fn nonzero_digit(key: char) -> (r: usize)
    requires
        is_nonzero_digit(key),
    ensures
        r == digit_value(key),
        1 <= r <= 9,
{
    let c: u32 = key as u32;
    (c - 48) as usize
}

/// Answer of the article selection to a key: a digit from 1 to the number of articles selects
/// the article at that position (0 = first), `*` cancels, any other key is ignored
pub fn select_article_step(key: char, num_articles: usize) -> (r: KeyStep<usize>)
    ensures
        is_nonzero_digit(key) && digit_value(key) <= num_articles ==> r == KeyStep::Accept(
            (digit_value(key) - 1) as usize,
        ),
        key == '*' ==> r == KeyStep::<usize>::Cancel,
        !(is_nonzero_digit(key) && digit_value(key) <= num_articles) && key != '*' ==> r
            == KeyStep::<usize>::Ignore,
{
    if '1' <= key && key <= '9' {
        let n = nonzero_digit(key);
        if n <= num_articles {
            return KeyStep::Accept(n - 1);
        }
        KeyStep::Ignore
    } else if key == '*' {
        KeyStep::Cancel
    } else {
        KeyStep::Ignore
    }
}

/// Answer of the amount prompt to a key: a digit from 1 to 9 is the amount, `*` cancels, any
/// other key is ignored
pub fn enter_amount_step(key: char) -> (r: KeyStep<usize>)
    ensures
        is_nonzero_digit(key) ==> r == KeyStep::Accept(digit_value(key) as usize),
        key == '*' ==> r == KeyStep::<usize>::Cancel,
        !is_nonzero_digit(key) && key != '*' ==> r == KeyStep::<usize>::Ignore,
{
    if '1' <= key && key <= '9' {
        KeyStep::Accept(nonzero_digit(key))
    } else if key == '*' {
        KeyStep::Cancel
    } else {
        KeyStep::Ignore
    }
}

/// Answer of the checkout to a key: `#` confirms the purchase, `*` cancels, any other key is
/// ignored
pub fn checkout_step(key: char) -> (r: KeyStep<()>)
    ensures
        key == '#' ==> r == KeyStep::Accept(()),
        key == '*' ==> r == KeyStep::<()>::Cancel,
        key != '#' && key != '*' ==> r == KeyStep::<()>::Ignore,
{
    if key == '#' {
        KeyStep::Accept(())
    } else if key == '*' {
        KeyStep::Cancel
    } else {
        KeyStep::Ignore
    }
}

/// Whether a key closes the success screen: only `#` does
pub fn success_step(key: char) -> (r: bool)
    ensures
        r <==> key == '#',
{
    key == '#'
}

// ---------------------------------------------------------------------------------------------
// Texts
// ---------------------------------------------------------------------------------------------

/// Number of user greetings
pub const NUM_GREETINGS: u32 = 20;

/// User greeting number `i` (of `NUM_GREETINGS`)
pub open spec fn greeting_text(i: int) -> Seq<char> {
    if i == 0 {
        "Hi"@
    } else if i == 1 {
        "Hallo"@
    } else if i == 2 {
        "Hey"@
    } else if i == 3 {
        "Tach"@
    } else if i == 4 {
        "Servus"@
    } else if i == 5 {
        "Moin"@
    } else if i == 6 {
        "Hej"@
    } else if i == 7 {
        "Olá"@
    } else if i == 8 {
        "Ciao"@
    } else if i == 9 {
        "Yo"@
    } else if i == 10 {
        "Ahoi"@
    } else if i == 11 {
        "Hola"@
    } else if i == 12 {
        "Salut"@
    } else if i == 13 {
        "Cheers"@
    } else if i == 14 {
        "Salve"@
    } else if i == 15 {
        "Hoi"@
    } else if i == 16 {
        "Hiya"@
    } else if i == 17 {
        "Sup"@
    } else if i == 18 {
        "Hiho"@
    } else {
        "Oi"@
    }
}

/// User greeting chosen by a random number: the greeting at the number modulo the number of
/// greetings
pub fn greeting(random: u32) -> (r: &'static str)
    ensures
        r@ == greeting_text((random % NUM_GREETINGS) as int),
{
    let i: u32 = random % NUM_GREETINGS;
    match i {
        0 => "Hi",
        1 => "Hallo",
        2 => "Hey",
        3 => "Tach",
        4 => "Servus",
        5 => "Moin",
        6 => "Hej",
        7 => "Olá",
        8 => "Ciao",
        9 => "Yo",
        10 => "Ahoi",
        11 => "Hola",
        12 => "Salut",
        13 => "Cheers",
        14 => "Salve",
        15 => "Hoi",
        16 => "Hiya",
        17 => "Sup",
        18 => "Hiho",
        _ => "Oi",
    }
}

/// Greeting line of the article selection: the greeting and the user's name
pub fn greeting_line(greeting: &str, name: &str) -> (r: String)
    ensures
        r@ == greeting@ + " "@ + name@,
{
    let mut out = String::from_str(greeting);
    push_str(&mut out, " ");
    push_str(&mut out, name);
    out
}

/// Horizontal alignment of a line of text in its box
#[derive(Debug, Clone, Copy, PartialEq, Eq, Structural)]
pub enum HorizontalAlignment {
    Left,
    Center,
}

/// Alignment of the greeting line in its box: left aligned if it is wider than the box (its
/// length in bytes times the width of a character), else centred
pub fn greeting_alignment(text: &str, char_width: u32, box_width: u32) -> (r: HorizontalAlignment)
    ensures
        r == if text.spec_bytes().len() * char_width > box_width {
            HorizontalAlignment::Left
        } else {
            HorizontalAlignment::Center
        },
{
    let bytes = text.as_bytes();
    let len = bytes.len() as u128;
    let w = char_width as u128;
    assert(len * w < 0x1_0000_0000_0000_0000_0000_0000u128) by (nonlinear_arith)
        requires
            len < 0x1_0000_0000_0000_0000u128,
            w < 0x1_0000_0000u128,
    ;
    assert(len * w == text.spec_bytes().len() * char_width);
    if len * w > box_width as u128 {
        HorizontalAlignment::Left
    } else {
        HorizontalAlignment::Center
    }
}

/// Decimal text of a number, as characters
pub open spec fn number_text(n: nat) -> Seq<char> {
    ascii_chars(decimal_digits(n))
}

/// Line of the article at the given position (0 = first) in the article selection: its number
/// (1 = first), a colon and its name
pub fn article_line(index: usize, name: &str) -> (r: String)
    requires
        index < u64::MAX,
    ensures
        r@ == number_text((index + 1) as nat) + ":"@ + name@,
{
    let mut out = decimal_string(index as u64 + 1);
    push_str(&mut out, ":");
    push_str(&mut out, name);
    out
}

/// Title of the article selection when no article is available
pub fn no_articles_text() -> (r: &'static str)
    ensures
        r@ == "Keine Artikel\nverfügbar"@,
{
    "Keine Artikel\nverfügbar"
}

/// Article line of the checkout: the amount, `x` and the article name
pub fn amount_line(amount: usize, name: &str) -> (r: String)
    ensures
        r@ == number_text(amount as nat) + "x "@ + name@,
{
    let mut out = decimal_string(amount as u64);
    push_str(&mut out, "x ");
    push_str(&mut out, name);
    out
}

/// Affirmation of the success screen: the number of approved drinks
pub fn success_line(amount: usize) -> (r: String)
    ensures
        r@ == number_text(amount as nat) + " Getränke genehmigt"@,
{
    let mut out = decimal_string(amount as u64);
    push_str(&mut out, " Getränke genehmigt");
    out
}

// ---------------------------------------------------------------------------------------------
// Purchase flow
// ---------------------------------------------------------------------------------------------

/// State of the purchase flow of an authenticated user
#[derive(Debug, PartialEq, Eq, Structural)]
pub enum Flow {
    /// Asking to select an article
    SelectArticle,
    /// Asking for the amount of the selected article (its position, 0 = first)
    EnterAmount { article: usize },
    /// Asking to confirm the purchase
    Checkout { article: usize, amount: usize },
    /// Waiting for the purchase to be stored
    Purchasing { article: usize, amount: usize },
    /// Showing success until confirmed
    Success { amount: usize },
    /// The flow has ended
    Done,
}

/// What happened while the flow waited
#[derive(Debug)]
pub enum FlowEvent {
    /// A key was pressed
    Key(char),
    /// The user did nothing for too long
    Timeout,
    /// Storing the purchase ended, with the error if it failed
    Purchased(Option<ErrorKind>),
}

/// What the flow asks to do next
#[derive(Debug)]
pub enum FlowAction {
    /// Keep the current screen and wait for the next event
    Wait,
    /// Show the screen of the new state and wait for the next event
    Prompt,
    /// Store the purchase of the given amount of the article at the given position
    Purchase { article: usize, amount: usize },
    /// The flow has ended, with the error if it failed
    Finish(Option<ErrorKind>),
}

/// Next state and action of the purchase flow after an event, with the given number of
/// selectable articles. Keys answer the prompt of the current state; a timeout ends any prompt
/// with `UserTimeout`; an event that does not fit the state is ignored.
pub open spec fn spec_flow_step(state: Flow, event: FlowEvent, num_articles: usize) -> (
    Flow,
    FlowAction,
) {
    match (state, event) {
        (Flow::SelectArticle, FlowEvent::Key(k)) => if is_nonzero_digit(k) && digit_value(k)
            <= num_articles {
            (Flow::EnterAmount { article: (digit_value(k) - 1) as usize }, FlowAction::Prompt)
        } else if k == '*' {
            (Flow::Done, FlowAction::Finish(Some(ErrorKind::Cancel)))
        } else {
            (Flow::SelectArticle, FlowAction::Wait)
        },
        (Flow::EnterAmount { article }, FlowEvent::Key(k)) => if is_nonzero_digit(k) {
            (Flow::Checkout { article, amount: digit_value(k) as usize }, FlowAction::Prompt)
        } else if k == '*' {
            (Flow::Done, FlowAction::Finish(Some(ErrorKind::Cancel)))
        } else {
            (Flow::EnterAmount { article }, FlowAction::Wait)
        },
        (Flow::Checkout { article, amount }, FlowEvent::Key(k)) => if k == '#' {
            (Flow::Purchasing { article, amount }, FlowAction::Purchase { article, amount })
        } else if k == '*' {
            (Flow::Done, FlowAction::Finish(Some(ErrorKind::Cancel)))
        } else {
            (Flow::Checkout { article, amount }, FlowAction::Wait)
        },
        (Flow::Success { amount }, FlowEvent::Key(k)) => if k == '#' {
            (Flow::Done, FlowAction::Finish(None))
        } else {
            (Flow::Success { amount }, FlowAction::Wait)
        },
        (Flow::Purchasing { article, amount }, FlowEvent::Purchased(res)) => match res {
            None => (Flow::Success { amount }, FlowAction::Prompt),
            Some(e) => (Flow::Done, FlowAction::Finish(Some(e))),
        },
        (Flow::SelectArticle, FlowEvent::Timeout) => (
            Flow::Done,
            FlowAction::Finish(Some(ErrorKind::UserTimeout)),
        ),
        (Flow::EnterAmount { .. }, FlowEvent::Timeout) => (
            Flow::Done,
            FlowAction::Finish(Some(ErrorKind::UserTimeout)),
        ),
        (Flow::Checkout { .. }, FlowEvent::Timeout) => (
            Flow::Done,
            FlowAction::Finish(Some(ErrorKind::UserTimeout)),
        ),
        (Flow::Success { .. }, FlowEvent::Timeout) => (
            Flow::Done,
            FlowAction::Finish(Some(ErrorKind::UserTimeout)),
        ),
        (s, _) => (s, FlowAction::Wait),
    }
}

/// Next state and action of the purchase flow after an event
pub fn flow_step(state: Flow, event: FlowEvent, num_articles: usize) -> (r: (Flow, FlowAction))
    ensures
        r == spec_flow_step(state, event, num_articles),
{
    match (state, event) {
        (Flow::SelectArticle, FlowEvent::Key(k)) => match select_article_step(k, num_articles) {
            KeyStep::Accept(i) => (Flow::EnterAmount { article: i }, FlowAction::Prompt),
            KeyStep::Cancel => (Flow::Done, FlowAction::Finish(Some(ErrorKind::Cancel))),
            KeyStep::Ignore => (Flow::SelectArticle, FlowAction::Wait),
        },
        (Flow::EnterAmount { article }, FlowEvent::Key(k)) => match enter_amount_step(k) {
            KeyStep::Accept(n) => (Flow::Checkout { article, amount: n }, FlowAction::Prompt),
            KeyStep::Cancel => (Flow::Done, FlowAction::Finish(Some(ErrorKind::Cancel))),
            KeyStep::Ignore => (Flow::EnterAmount { article }, FlowAction::Wait),
        },
        (Flow::Checkout { article, amount }, FlowEvent::Key(k)) => match checkout_step(k) {
            KeyStep::Accept(()) => (
                Flow::Purchasing { article, amount },
                FlowAction::Purchase { article, amount },
            ),
            KeyStep::Cancel => (Flow::Done, FlowAction::Finish(Some(ErrorKind::Cancel))),
            KeyStep::Ignore => (Flow::Checkout { article, amount }, FlowAction::Wait),
        },
        (Flow::Success { amount }, FlowEvent::Key(k)) => if success_step(k) {
            (Flow::Done, FlowAction::Finish(None))
        } else {
            (Flow::Success { amount }, FlowAction::Wait)
        },
        (Flow::Purchasing { article, amount }, FlowEvent::Purchased(res)) => match res {
            None => (Flow::Success { amount }, FlowAction::Prompt),
            Some(e) => (Flow::Done, FlowAction::Finish(Some(e))),
        },
        (Flow::SelectArticle, FlowEvent::Timeout) => (
            Flow::Done,
            FlowAction::Finish(Some(ErrorKind::UserTimeout)),
        ),
        (Flow::EnterAmount { .. }, FlowEvent::Timeout) => (
            Flow::Done,
            FlowAction::Finish(Some(ErrorKind::UserTimeout)),
        ),
        (Flow::Checkout { .. }, FlowEvent::Timeout) => (
            Flow::Done,
            FlowAction::Finish(Some(ErrorKind::UserTimeout)),
        ),
        (Flow::Success { .. }, FlowEvent::Timeout) => (
            Flow::Done,
            FlowAction::Finish(Some(ErrorKind::UserTimeout)),
        ),
        (s, _) => (s, FlowAction::Wait),
    }
}

/// The flow's state is consistent: a selected article is one of the selectable ones, and an
/// amount is one of 1 to 9
pub open spec fn flow_wf(state: Flow, num_articles: usize) -> bool {
    match state {
        Flow::EnterAmount { article } => article < num_articles,
        Flow::Checkout { article, amount } => article < num_articles && 1 <= amount <= 9,
        Flow::Purchasing { article, amount } => article < num_articles && 1 <= amount <= 9,
        Flow::Success { amount } => 1 <= amount <= 9,
        _ => true,
    }
}

/// Every step keeps the flow consistent, and a purchase is only ever requested by confirming the
/// checkout with `#`, for the article and amount shown there, which are a selectable article
/// and an amount from 1 to 9
pub proof fn lemma_flow_step_safe(state: Flow, event: FlowEvent, num_articles: usize)
    requires
        flow_wf(state, num_articles),
    ensures
        flow_wf(spec_flow_step(state, event, num_articles).0, num_articles),
        spec_flow_step(state, event, num_articles).1 matches FlowAction::Purchase { article, amount }
            ==> state == (Flow::Checkout { article, amount }) && event == FlowEvent::Key('#')
            && article < num_articles && 1 <= amount <= 9,
{
}

/// Buying by keys: at the article selection the digit key `n` selects the `n`-th article (the
/// one at position `n - 1`) if there are that many, and is ignored otherwise; at the amount
/// prompt the digit key `n` gives the amount `n`; at the checkout `#` asks to purchase that
/// amount of that article
pub proof fn law_purchase_by_keys(ks: char, ka: char, num_articles: usize)
    requires
        '1' <= ks <= '9',
        '1' <= ka <= '9',
    ensures
        ({
            let n = ks as int - 48;
            let amount = (ka as int - 48) as usize;
            &&& n <= num_articles ==> spec_flow_step(
                Flow::SelectArticle,
                FlowEvent::Key(ks),
                num_articles,
            ) == (Flow::EnterAmount { article: (n - 1) as usize }, FlowAction::Prompt)
            &&& n > num_articles ==> spec_flow_step(
                Flow::SelectArticle,
                FlowEvent::Key(ks),
                num_articles,
            ) == (Flow::SelectArticle, FlowAction::Wait)
            &&& forall|article: usize|
                #[trigger] spec_flow_step(
                    Flow::EnterAmount { article },
                    FlowEvent::Key(ka),
                    num_articles,
                ) == (Flow::Checkout { article, amount }, FlowAction::Prompt)
            &&& forall|article: usize, amount2: usize|
                #[trigger] spec_flow_step(
                    Flow::Checkout { article, amount: amount2 },
                    FlowEvent::Key('#'),
                    num_articles,
                ) == (
                    Flow::Purchasing { article, amount: amount2 },
                    FlowAction::Purchase { article, amount: amount2 },
                )
        }),
{
}

/// Doing nothing for too long at any prompt ends the flow with a timeout; a timeout while the
/// purchase is stored changes nothing
pub proof fn law_flow_timeout(state: Flow, num_articles: usize)
    ensures
        (state is SelectArticle || state is EnterAmount || state is Checkout || state is Success)
            ==> spec_flow_step(state, FlowEvent::Timeout, num_articles) == (
            Flow::Done,
            FlowAction::Finish(Some(ErrorKind::UserTimeout)),
        ),
        state is Purchasing ==> spec_flow_step(state, FlowEvent::Timeout, num_articles) == (
            state,
            FlowAction::Wait,
        ),
{
}

/// The keypads' layout: on both, the keys of the first three columns of the first three rows
/// are the digits `1` to `9` in reading order, and the last row starts with `*`, `0`, `#`; the
/// fourth column of the larger keypad holds `A` to `D`
pub proof fn law_keypad_layout()
    ensures
        forall|row: int, col: int|
            0 <= row < 3 && 0 <= col < 3 ==> #[trigger] keys_3x4()[3 * row + col] as int == 49 + 3
                * row + col && keys_4x4()[4 * row + col] as int == 49 + 3 * row + col,
        keys_3x4()[9] == '*' && keys_3x4()[10] == '0' && keys_3x4()[11] == '#',
        keys_4x4()[12] == '*' && keys_4x4()[13] == '0' && keys_4x4()[14] == '#',
        forall|row: int| 0 <= row < 4 ==> #[trigger] keys_4x4()[4 * row + 3] as int == 65 + row,
{
    assert forall|row: int, col: int| 0 <= row < 3 && 0 <= col < 3 implies #[trigger] keys_3x4()[3
        * row + col] as int == 49 + 3 * row + col && keys_4x4()[4 * row + col] as int == 49 + 3 * row
        + col by {
        if row == 0 {
            if col == 0 {
            } else if col == 1 {
            } else {
            }
        } else if row == 1 {
            if col == 0 {
            } else if col == 1 {
            } else {
            }
        } else {
            if col == 0 {
            } else if col == 1 {
            } else {
            }
        }
    }
    assert forall|row: int| 0 <= row < 4 implies #[trigger] keys_4x4()[4 * row + 3] as int == 65
        + row by {
        if row == 0 {
        } else if row == 1 {
        } else if row == 2 {
        } else {
        }
    }
}

/// Cancelling (`*`) at any prompt before the purchase ends the flow as cancelled, without a
/// purchase
pub proof fn lemma_flow_cancel(state: Flow, num_articles: usize)
    requires
        state is SelectArticle || state is EnterAmount || state is Checkout,
    ensures
        spec_flow_step(state, FlowEvent::Key('*'), num_articles) == (
            Flow::Done,
            FlowAction::Finish(Some(ErrorKind::Cancel)),
        ),
{
}

// ---------------------------------------------------------------------------------------------
// Authentication and data refresh
// ---------------------------------------------------------------------------------------------

/// Outcome of presenting an NFC card: the user it belongs to (id and name), if it is known, and
/// the telemetry event to track
pub fn authenticate(users: &Users, uid: Uid) -> (r: (Option<(u32, String)>, Event))
    ensures
        users.uid_map().dom().contains(uid@) && users.user_map().dom().contains(
            users.uid_map()[uid@],
        ) ==> (r.0 matches Some((id, name)) && id == users.uid_map()[uid@] && name@
            == users.user_map()[id] && (r.1 matches Event::UserAuthenticated(i, u) && i == id
            && u@ == uid@)),
        !(users.uid_map().dom().contains(uid@) && users.user_map().dom().contains(
            users.uid_map()[uid@],
        )) ==> (r.0 is None && (r.1 matches Event::AuthenticationFailed(u) && u@ == uid@)),
{
    match users.get_by_uid(&uid) {
        Some((id, user)) => (Some((id, user.name.clone())), Event::UserAuthenticated(id, uid)),
        None => (None, Event::AuthenticationFailed(uid)),
    }
}

/// The clock's current date, which refreshing prices and submitting a purchase need: without one
/// they fail with `CurrentTimeNotSet` before anything is changed or submitted
pub fn current_date(clock: &Clock, uptime: u64) -> (r: Result<Date, ErrorKind>)
    requires
        uptime <= i64::MAX,
        clock.start() matches Some(s) ==> s + uptime <= i64::MAX,
    ensures
        match clock_date(*clock, uptime) {
            Some(d) => r == Ok::<Date, ErrorKind>(d),
            None => r == Err::<Date, ErrorKind>(ErrorKind::CurrentTimeNotSet),
        },
{
    match clock.today(uptime) {
        Some(d) => Ok(d),
        None => Err(ErrorKind::CurrentTimeNotSet),
    }
}

/// Refresh the article table with the received articles, at their prices of the clock's current
/// date. Without a current date the refresh fails with `CurrentTimeNotSet` before the table is
/// cleared. Returns the number of articles received.
pub fn refresh_articles_today<P: Copy>(
    articles: &mut Articles<P>,
    received: &[VereinsfliegerArticle<P>],
    clock: &Clock,
    uptime: u64,
) -> (r: Result<usize, ErrorKind>)
    requires
        uptime <= i64::MAX,
        clock.start() matches Some(s) ==> s + uptime <= i64::MAX,
    ensures
        final(articles).id_list() == old(articles).id_list(),
        match clock_date(*clock, uptime) {
            None => r == Err::<usize, ErrorKind>(ErrorKind::CurrentTimeNotSet)
                && final(articles).article_map() == old(articles).article_map(),
            Some(d) => r == Ok::<usize, ErrorKind>(received@.len() as usize)
                && final(articles).article_map() == refreshed_articles(
                Map::empty(),
                old(articles).id_list(),
                received@,
                d,
            ),
        },
{
    let today = match current_date(clock, uptime) {
        Ok(d) => d,
        Err(e) => return Err(e),
    };
    Ok(articles.refresh(received, today))
}

/// Refresh articles and users from the received lists, in the terminal's order: the current date
/// is needed first, and without it nothing changes; then the articles are refreshed, then the
/// users, and only then is the event of the finished refresh made, with the resulting counts
pub fn refresh_data<P: Copy>(
    articles: &mut Articles<P>,
    users: &mut Users,
    received_articles: &[VereinsfliegerArticle<P>],
    received_users: &[VereinsfliegerUser],
    clock: &Clock,
    uptime: u64,
) -> (r: Result<Event, ErrorKind>)
    requires
        uptime <= i64::MAX,
        clock.start() matches Some(s) ==> s + uptime <= i64::MAX,
    ensures
        final(articles).id_list() == old(articles).id_list(),
        match clock_date(*clock, uptime) {
            None => r == Err::<Event, ErrorKind>(ErrorKind::CurrentTimeNotSet)
                && final(articles).article_map() == old(articles).article_map()
                && final(users).uid_map() == old(users).uid_map()
                && final(users).user_map() == old(users).user_map(),
            Some(d) => {
                &&& final(articles).article_map() == refreshed_articles(
                    Map::empty(),
                    old(articles).id_list(),
                    received_articles@,
                    d,
                )
                &&& (final(users).uid_map(), final(users).user_map()) == refreshed_users(
                    (extra_uids(), extra_users()),
                    received_users@,
                )
                &&& r == Ok::<Event, ErrorKind>(
                    Event::DataRefreshed(
                        final(articles).article_map().dom().len() as usize,
                        final(users).uid_map().dom().len() as usize,
                        final(users).user_map().dom().len() as usize,
                    ),
                )
            },
        },
{
    match refresh_articles_today(articles, received_articles, clock, uptime) {
        Ok(_) => {},
        Err(e) => return Err(e),
    }
    let _ = users.refresh(received_users);
    Ok(data_refreshed(articles, users))
}

/// Telemetry event of a finished data refresh: the numbers of articles, card UIDs and users
pub fn data_refreshed<P>(articles: &Articles<P>, users: &Users) -> (r: Event)
    ensures
        articles.article_map().dom().finite(),
        users.tables_finite(),
        r == Event::DataRefreshed(
            articles.article_map().dom().len() as usize,
            users.uid_map().dom().len() as usize,
            users.user_map().dom().len() as usize,
        ),
{
    Event::DataRefreshed(articles.count(), users.count_uids(), users.count())
}

// ---------------------------------------------------------------------------------------------
// Waiting and error screens
// ---------------------------------------------------------------------------------------------

/// A lengthy action in progress, shown while waiting
#[derive(Debug, Clone, Copy, PartialEq, Eq, Structural)]
pub enum PleaseWait {
    WifiConnecting,
    UpdateCheck,
    UpdatingFirmware,
    UpdatingData,
    Purchasing,
    SubmittingTelemetry,
}

/// Message shown while waiting for an action
pub open spec fn please_wait_text(p: PleaseWait) -> Seq<char> {
    match p {
        PleaseWait::WifiConnecting => "WLAN Verbindung\nwird aufgebaut"@,
        PleaseWait::UpdateCheck => "Suche Updates"@,
        PleaseWait::UpdatingFirmware => "Lade\nFirmware-Update"@,
        PleaseWait::UpdatingData => "Daten-Aktualisierung"@,
        PleaseWait::Purchasing => "Zahlung wird\nbearbeitet"@,
        PleaseWait::SubmittingTelemetry => "Daten-Übertragung"@,
    }
}

impl PleaseWait {
    /// Title of the waiting screen
    pub fn title(&self) -> (r: &'static str)
        ensures
            r@ == "Stand By..."@,
    {
        "Stand By..."
    }

    /// Message of the waiting screen
    pub fn message(&self) -> (r: &'static str)
        ensures
            r@ == please_wait_text(*self),
    {
        match self {
            PleaseWait::WifiConnecting => "WLAN Verbindung\nwird aufgebaut",
            PleaseWait::UpdateCheck => "Suche Updates",
            PleaseWait::UpdatingFirmware => "Lade\nFirmware-Update",
            PleaseWait::UpdatingData => "Daten-Aktualisierung",
            PleaseWait::Purchasing => "Zahlung wird\nbearbeitet",
            PleaseWait::SubmittingTelemetry => "Daten-Übertragung",
        }
    }
}

/// Whether a key closes the error screen: only `*` does
pub fn error_step(key: char) -> (r: bool)
    ensures
        r <==> key == '*',
{
    key == '*'
}

// ---------------------------------------------------------------------------------------------
// Outcome of a flow
// ---------------------------------------------------------------------------------------------

/// What follows a flow: nothing after success, a cancel or a user timeout (the flow simply
/// starts over); otherwise the error is reported: the telemetry event to track (with the user
/// whose action caused it and the error's text), and whether it was caused by a user (then the
/// error buzzer sounds)
pub fn flow_outcome(result: Result<(), Error>) -> (r: Option<(Event, bool)>)
    ensures
        match result {
            Ok(()) => r is None,
            Err(e) => if e.spec_kind() is Cancel || e.spec_kind() is UserTimeout {
                r is None
            } else {
                r matches Some((Event::Error(u, m), as_user)) && u == e.spec_user() && m@
                    == kind_text(e.spec_kind()) && as_user == (e.spec_user() is Some)
            },
        },
{
    match result {
        Ok(()) => None,
        Err(e) => {
            if e.is_cancel() || e.is_user_timeout() {
                None
            } else {
                let user = e.user_id();
                let message = e.kind().message();
                let as_user = match user {
                    Some(_) => true,
                    None => false,
                };
                Some((Event::Error(user, message), as_user))
            }
        },
    }
}

} // verus!
