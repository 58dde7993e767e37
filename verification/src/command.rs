//! The command interpreter: from the text of a chat message and the names of
//! the orders that are open in the conversation to a command, or to the reason
//! why the text is none.
use vstd::prelude::*;
use vstd::slice::slice_subrange;
use crate::text::{
    as_slices, join, joined, lemma_without_prefix, lemma_without_split, lemma_words_split,
    lowercase, remove_all, same_text, split_words, texts, to_chars, to_lowercase, trim, trim_chars,
    trim_end, trim_start, white_space, without, words,
};

verus! {

/// What a chat message asks for.
#[derive(Debug, PartialEq, Eq)]
pub enum Command {
    /// Starts a new order in the conversation, under this name.
    StartOrder(String),
    /// Ends the order of this name.
    EndOrder(String),
    /// Selects, in the order named first, the item named second.
    AddItem(String, String),
    /// Withdraws the sender's selection from the order of this name.
    RemoveItem(String),
    /// Shows the open orders.
    ViewOrders,
    /// Shows the usage text.
    Help,
}

/// A command as a mathematical value.
pub enum CommandView {
    StartOrder(Seq<char>),
    EndOrder(Seq<char>),
    AddItem(Seq<char>, Seq<char>),
    RemoveItem(Seq<char>),
    ViewOrders,
    Help,
}

impl View for Command {
    type V = CommandView;

    open spec fn view(&self) -> CommandView {
        match self {
            Command::StartOrder(name) => CommandView::StartOrder(name@),
            Command::EndOrder(name) => CommandView::EndOrder(name@),
            Command::AddItem(name, item) => CommandView::AddItem(name@, item@),
            Command::RemoveItem(name) => CommandView::RemoveItem(name@),
            Command::ViewOrders => CommandView::ViewOrders,
            Command::Help => CommandView::Help,
        }
    }
}

/// Why a text is no command.
#[derive(Debug, Clone, Copy, PartialEq, Eq)]
pub enum ParseErrorKind {
    /// The verb is known, but something it needs is missing.
    InvalidSyntax,
    /// The verb needs an open order, and the conversation has none.
    NoActiveOrder,
    /// Several orders are open and the text names none of them.
    AmbiguousOrderName,
    /// The text names an order that is not open.
    OrderNotFound,
    /// The text is no command, or its verb is not known.
    UnknownCommand,
}

/// A refusal of the interpreter: its kind, and the message for the sender.
#[derive(Debug, PartialEq, Eq)]
pub struct ParseError {
    pub kind: ParseErrorKind,
    pub message: String,
}

/// A refusal as a mathematical value.
pub struct ParseErrorView {
    pub kind: ParseErrorKind,
    pub message: Seq<char>,
}

impl View for ParseError {
    type V = ParseErrorView;

    open spec fn view(&self) -> ParseErrorView {
        ParseErrorView { kind: self.kind, message: self.message@ }
    }
}

/// What the interpreter makes of a text.
pub type Parsed = Result<CommandView, ParseErrorView>;

/// The mention of the bot that a chat client may add to a command.
pub open spec fn mention() -> Seq<char> {
    "@food_ordering_bot"@
}

/// A text in its normal form: trimmed, and with the mentions of the bot taken
/// out of what remains.
pub open spec fn normalized(text: Seq<char>) -> Seq<char> {
    without(trim(text), mention())
}

/// The tokens of a text: the words of its normal form.
pub open spec fn tokens(text: Seq<char>) -> Seq<Seq<char>> {
    words(normalized(text))
}

/// The refusal of the given kind with the given message.
pub open spec fn refusal(kind: ParseErrorKind, message: Seq<char>) -> Parsed {
    Err(ParseErrorView { kind, message })
}

/// The answer to a verb that needs an open order where none is open.
pub open spec fn no_active_order() -> Parsed {
    refusal(
        ParseErrorKind::NoActiveOrder,
        "There are no active orders. Start one by using /start <order name>."@,
    )
}

/// The order that a verb with an optional order name refers to: with no
/// argument, the only open order; with one argument, the open order of that
/// name. Anything else refers to no order.
pub open spec fn inferred_order_name(args: Seq<Seq<char>>, active: Seq<Seq<char>>) -> Option<
    Seq<char>,
> {
    if args.len() == 0 && active.len() == 1 {
        Some(active[0])
    } else if args.len() == 1 && active.contains(args[0]) {
        Some(args[0])
    } else {
        None
    }
}

/// `/start <name>`: the arguments, joined by hyphens, name the new order.
pub open spec fn parsed_start(args: Seq<Seq<char>>) -> Parsed {
    if args.len() == 0 {
        refusal(
            ParseErrorKind::InvalidSyntax,
            "Specify the name of the order. For example, /start waffles"@,
        )
    } else {
        Ok(CommandView::StartOrder(joined(args, "-"@)))
    }
}

/// `/end [name]`.
pub open spec fn parsed_end(args: Seq<Seq<char>>, active: Seq<Seq<char>>) -> Parsed {
    if active.len() == 0 {
        no_active_order()
    } else {
        match inferred_order_name(args, active) {
            Some(name) => Ok(CommandView::EndOrder(name)),
            None => if args.len() == 0 {
                refusal(
                    ParseErrorKind::AmbiguousOrderName,
                    "Since there are multiple active orders, Specify the name of the order. For example, /end waffles"@,
                )
            } else {
                refusal(ParseErrorKind::OrderNotFound, "Order "@ + args[0] + " not found."@)
            },
        }
    }
}

/// `/cancel [name]`.
pub open spec fn parsed_cancel(args: Seq<Seq<char>>, active: Seq<Seq<char>>) -> Parsed {
    if active.len() == 0 {
        no_active_order()
    } else {
        match inferred_order_name(args, active) {
            Some(name) => Ok(CommandView::RemoveItem(name)),
            None => if args.len() == 0 {
                refusal(
                    ParseErrorKind::AmbiguousOrderName,
                    "As there are multiple active orders, Specify the name of the order. For example, /cancel waffles"@,
                )
            } else {
                refusal(ParseErrorKind::OrderNotFound, "Order "@ + args[0] + " not found."@)
            },
        }
    }
}

/// `/order [name] <item...>`. With one open order, a first argument that is
/// its name is taken as the name, and the item is the rest; otherwise all the
/// arguments are the item. With several open orders the first argument has to
/// name one of them and an item has to follow: a lone argument that names an
/// order lacks the item, anything else that short names no order, and a first
/// argument before an item that is no open order is not found.
pub open spec fn parsed_order(args: Seq<Seq<char>>, active: Seq<Seq<char>>) -> Parsed {
    if active.len() == 0 {
        no_active_order()
    } else if active.len() == 1 {
        if args.len() == 0 {
            refusal(
                ParseErrorKind::InvalidSyntax,
                "Specify the name of the item you wish to order. For example, /order chocolate"@,
            )
        } else if active.contains(args[0]) {
            Ok(CommandView::AddItem(args[0], joined(args.skip(1), " "@)))
        } else {
            Ok(CommandView::AddItem(active[0], joined(args, " "@)))
        }
    } else {
        if args.len() < 2 {
            refusal(
                if args.len() == 1 && active.contains(args[0]) {
                    ParseErrorKind::InvalidSyntax
                } else {
                    ParseErrorKind::AmbiguousOrderName
                },
                "Specify the order name and item you wish to order. For example, /order waffles chocolate"@,
            )
        } else if active.contains(args[0]) {
            Ok(CommandView::AddItem(args[0], joined(args.skip(1), " "@)))
        } else {
            refusal(
                ParseErrorKind::OrderNotFound,
                "Order "@ + args[0]
                    + " not found. Specify the order name and item you wish to order. For example, /order waffles chocolate"@,
            )
        }
    }
}

/// The answer to a verb that is not known.
pub open spec fn unknown_command() -> Parsed {
    refusal(ParseErrorKind::UnknownCommand, "Use /help for a list of recognized commands."@)
}

/// The command that a sequence of tokens stands for: the first token is the
/// verb, the others are its arguments.
pub open spec fn parsed_tokens(tokens: Seq<Seq<char>>, active: Seq<Seq<char>>) -> Parsed {
    if tokens.len() == 0 {
        unknown_command()
    } else {
        let verb = tokens[0];
        let args = tokens.skip(1);
        if verb == "/help"@ {
            Ok(CommandView::Help)
        } else if verb == "/start"@ {
            parsed_start(args)
        } else if verb == "/end"@ {
            parsed_end(args, active)
        } else if verb == "/order"@ {
            parsed_order(args, active)
        } else if verb == "/cancel"@ {
            parsed_cancel(args, active)
        } else if verb == "/view"@ {
            Ok(CommandView::ViewOrders)
        } else {
            unknown_command()
        }
    }
}

/// The command that a text in lowercase stands for.
pub open spec fn parsed_text(text: Seq<char>, active: Seq<Seq<char>>) -> Parsed {
    parsed_tokens(tokens(text), active)
}

/// The command that a chat message stands for. A message that does not begin
/// with a slash is none; any other is read in its lowercase form.
pub open spec fn parsed_message(message: Seq<char>, active: Seq<Seq<char>>) -> Parsed {
    if message.len() == 0 || message[0] != '/' {
        refusal(ParseErrorKind::UnknownCommand, "Use /help for supported commands."@)
    } else {
        parsed_text(lowercase(message), active)
    }
}

/// Whether `r` is the outcome `p`.
pub open spec fn is_parsed(r: Result<Command, ParseError>, p: Parsed) -> bool {
    match (r, p) {
        (Ok(c), Ok(v)) => c@ == v,
        (Err(e), Err(v)) => e@ == v,
        _ => false,
    }
}

/// Whether one of `names` holds the text of `name`.
fn contains(names: &[&str], name: &str) -> (r: bool)
    ensures
        r == texts(names@).contains(name@),
{
    let mut i: usize = 0;
    while i < names.len()
        invariant
            i <= names@.len(),
            forall|j: int| 0 <= j < i ==> texts(names@)[j] != name@,
        decreases names@.len() - i,
    {
        if same_text(names[i], name) {
            assert(texts(names@)[i as int] == name@);
            return true;
        }
        i += 1;
    }
    false
}

/// The order that a verb with an optional order name refers to, if any.
pub fn infer_order_name(args: &[&str], active_orders: &[&str]) -> (r: Option<String>)
    ensures
        match (r, inferred_order_name(texts(args@), texts(active_orders@))) {
            (Some(name), Some(v)) => name@ == v,
            (None, None) => true,
            _ => false,
        },
{
    if args.len() == 0 && active_orders.len() == 1 {
        Some(active_orders[0].to_owned())
    } else if args.len() == 1 && contains(active_orders, args[0]) {
        Some(args[0].to_owned())
    } else {
        None
    }
}

/// The refusal of the given kind with the given message.
fn refuse(kind: ParseErrorKind, message: String) -> (r: Result<Command, ParseError>)
    ensures
        is_parsed(r, refusal(kind, message@)),
{
    Err(ParseError { kind, message })
}

/// The answer to a verb that needs an open order where none is open.
fn refuse_no_active_order() -> (r: Result<Command, ParseError>)
    ensures
        is_parsed(r, no_active_order()),
{
    refuse(
        ParseErrorKind::NoActiveOrder,
        "There are no active orders. Start one by using /start <order name>.".to_owned(),
    )
}

/// The answer to a verb that is not known.
fn refuse_unknown_command() -> (r: Result<Command, ParseError>)
    ensures
        is_parsed(r, unknown_command()),
{
    refuse(
        ParseErrorKind::UnknownCommand,
        "Use /help for a list of recognized commands.".to_owned(),
    )
}

/// The message that the order `name` is not open, ending in `advice`.
fn order_not_found(name: &str, advice: &str) -> (r: String)
    ensures
        r@ == "Order "@ + name@ + advice@,
{
    let mut message = "Order ".to_owned();
    message.append(name);
    message.append(advice);
    message
}

/// Interprets the arguments of `/start`.
fn parse_start(args: &[&str]) -> (r: Result<Command, ParseError>)
    ensures
        is_parsed(r, parsed_start(texts(args@))),
{
    if args.len() == 0 {
        refuse(
            ParseErrorKind::InvalidSyntax,
            "Specify the name of the order. For example, /start waffles".to_owned(),
        )
    } else {
        Ok(Command::StartOrder(join(args, "-")))
    }
}

/// Interprets the arguments of `/end`.
fn parse_end(args: &[&str], active_orders: &[&str]) -> (r: Result<Command, ParseError>)
    ensures
        is_parsed(r, parsed_end(texts(args@), texts(active_orders@))),
{
    if active_orders.len() == 0 {
        refuse_no_active_order()
    } else {
        match infer_order_name(args, active_orders) {
            Some(name) => Ok(Command::EndOrder(name)),
            None => if args.len() == 0 {
                refuse(
                    ParseErrorKind::AmbiguousOrderName,
                    "Since there are multiple active orders, Specify the name of the order. For example, /end waffles".to_owned(),
                )
            } else {
                refuse(ParseErrorKind::OrderNotFound, order_not_found(args[0], " not found."))
            },
        }
    }
}

/// Interprets the arguments of `/cancel`.
fn parse_cancel(args: &[&str], active_orders: &[&str]) -> (r: Result<Command, ParseError>)
    ensures
        is_parsed(r, parsed_cancel(texts(args@), texts(active_orders@))),
{
    if active_orders.len() == 0 {
        refuse_no_active_order()
    } else {
        match infer_order_name(args, active_orders) {
            Some(name) => Ok(Command::RemoveItem(name)),
            None => if args.len() == 0 {
                refuse(
                    ParseErrorKind::AmbiguousOrderName,
                    "As there are multiple active orders, Specify the name of the order. For example, /cancel waffles".to_owned(),
                )
            } else {
                refuse(ParseErrorKind::OrderNotFound, order_not_found(args[0], " not found."))
            },
        }
    }
}

/// The command that selects, in the order `args[0]`, the item that the other
/// arguments spell.
fn named_item(args: &[&str]) -> (r: Result<Command, ParseError>)
    requires
        args@.len() > 0,
    ensures
        is_parsed(
            r,
            Ok(CommandView::AddItem(texts(args@)[0], joined(texts(args@).skip(1), " "@))),
        ),
{
    let rest = slice_subrange(args, 1, args.len());
    assert(texts(rest@) =~= texts(args@).skip(1));
    Ok(Command::AddItem(args[0].to_owned(), join(rest, " ")))
}

/// Interprets the arguments of `/order`.
fn parse_order(args: &[&str], active_orders: &[&str]) -> (r: Result<Command, ParseError>)
    ensures
        is_parsed(r, parsed_order(texts(args@), texts(active_orders@))),
{
    if active_orders.len() == 0 {
        refuse_no_active_order()
    } else if active_orders.len() == 1 {
        if args.len() == 0 {
            refuse(
                ParseErrorKind::InvalidSyntax,
                "Specify the name of the item you wish to order. For example, /order chocolate".to_owned(),
            )
        } else if contains(active_orders, args[0]) {
            named_item(args)
        } else {
            Ok(Command::AddItem(active_orders[0].to_owned(), join(args, " ")))
        }
    } else {
        if args.len() < 2 {
            let kind = if args.len() == 1 && contains(active_orders, args[0]) {
                ParseErrorKind::InvalidSyntax
            } else {
                ParseErrorKind::AmbiguousOrderName
            };
            refuse(
                kind,
                "Specify the order name and item you wish to order. For example, /order waffles chocolate".to_owned(),
            )
        } else if contains(active_orders, args[0]) {
            named_item(args)
        } else {
            refuse(
                ParseErrorKind::OrderNotFound,
                order_not_found(
                    args[0],
                    " not found. Specify the order name and item you wish to order. For example, /order waffles chocolate",
                ),
            )
        }
    }
}

/// Interprets a sequence of tokens: the verb, then its arguments.
pub fn parse_tokens(tokens: &[&str], active_orders: &[&str]) -> (r: Result<Command, ParseError>)
    ensures
        is_parsed(r, parsed_tokens(texts(tokens@), texts(active_orders@))),
{
    if tokens.len() == 0 {
        return refuse_unknown_command();
    }
    let verb = tokens[0];
    let args = slice_subrange(tokens, 1, tokens.len());
    assert(texts(args@) =~= texts(tokens@).skip(1));
    if same_text(verb, "/help") {
        Ok(Command::Help)
    } else if same_text(verb, "/start") {
        parse_start(args)
    } else if same_text(verb, "/end") {
        parse_end(args, active_orders)
    } else if same_text(verb, "/order") {
        parse_order(args, active_orders)
    } else if same_text(verb, "/cancel") {
        parse_cancel(args, active_orders)
    } else if same_text(verb, "/view") {
        Ok(Command::ViewOrders)
    } else {
        refuse_unknown_command()
    }
}

/// The characters of the normal form of `text`.
pub fn normalize(text: &str) -> (r: Vec<char>)
    ensures
        r@ == normalized(text@),
{
    let chars = to_chars(text);
    let trimmed = trim_chars(&chars);
    let pattern = to_chars("@food_ordering_bot");
    remove_all(&trimmed, &pattern)
}

/// Interprets a text that is already in lowercase: trims it, takes the
/// mentions of the bot out, splits it into tokens and interprets those.
pub fn parse_text(text: &str, active_orders: &[&str]) -> (r: Result<Command, ParseError>)
    ensures
        is_parsed(r, parsed_text(text@, texts(active_orders@))),
{
    let stripped = normalize(text);
    let owned = split_words(&stripped);
    let tokens = as_slices(&owned);
    parse_tokens(tokens.as_slice(), active_orders)
}

/// Interprets a chat message, given the names of the orders that are open in
/// its conversation. A command begins with a slash; behind it, case, the
/// amount of whitespace and mentions of the bot make no difference. The error
/// is the message for the sender.
pub fn parse_command(message: &str, active_orders: &[&str]) -> (r: Result<Command, String>)
    ensures
        match (r, parsed_message(message@, texts(active_orders@))) {
            (Ok(c), Ok(v)) => c@ == v,
            (Err(m), Err(v)) => m@ == v.message,
            _ => false,
        },
{
    if message.is_empty() || message.get_char(0) != '/' {
        return Err("Use /help for supported commands.".to_owned());
    }
    let lowered = to_lowercase(message);
    match parse_text(lowered.as_str(), active_orders) {
        Ok(command) => Ok(command),
        Err(e) => Err(e.message),
    }
}

/// The mention begins with `@` and holds no separator.
pub proof fn lemma_mention()
    ensures
        mention().len() == 18,
        mention()[0] == '@',
        forall|w: char| white_space(w) ==> !mention().contains(w),
{
    reveal_strlit("@food_ordering_bot");
}

/// The words of a text once the mentions of the bot are taken out.
spec fn plain_words(text: Seq<char>) -> Seq<Seq<char>> {
    words(without(text, mention()))
}

/// A separator parts the text for `plain_words`.
proof fn lemma_plain_words_split(a: Seq<char>, w: char, b: Seq<char>)
    requires
        white_space(w),
    ensures
        plain_words(a + seq![w] + b) == plain_words(a) + plain_words(b),
{
    lemma_mention();
    lemma_without_split(a, w, b, mention());
    lemma_words_split(without(a, mention()), w, without(b, mention()));
}

/// Leading separators make no difference to `plain_words`.
proof fn lemma_plain_words_trim_start(text: Seq<char>)
    ensures
        plain_words(trim_start(text)) == plain_words(text),
    decreases text.len(),
{
    if text.len() > 0 && white_space(text[0]) {
        let none = Seq::<char>::empty();
        lemma_plain_words_trim_start(text.skip(1));
        lemma_plain_words_split(none, text[0], text.skip(1));
        assert(none + seq![text[0]] + text.skip(1) =~= text);
    }
}

/// Trailing separators make no difference to `plain_words`.
proof fn lemma_plain_words_trim_end(text: Seq<char>)
    ensures
        plain_words(trim_end(text)) == plain_words(text),
    decreases text.len(),
{
    if text.len() > 0 && white_space(text.last()) {
        let none = Seq::<char>::empty();
        lemma_plain_words_trim_end(text.drop_last());
        lemma_plain_words_split(text.drop_last(), text.last(), none);
        assert(text.drop_last() + seq![text.last()] + none =~= text);
    }
}

/// Trimming makes no difference to the tokens: they are the words of the
/// text without the mentions.
pub proof fn lemma_tokens(text: Seq<char>)
    ensures
        tokens(text) == words(without(text, mention())),
{
    lemma_plain_words_trim_start(text);
    lemma_plain_words_trim_end(trim_start(text));
}

/// Whether `gap` is made of separators only.
pub open spec fn blank(gap: Seq<char>) -> bool {
    forall|i: int| 0 <= i < gap.len() ==> white_space(gap[i])
}

/// A separator parts the text: its tokens are those of what stands before
/// the separator, then those of what stands behind it.
pub proof fn lemma_tokens_split(a: Seq<char>, w: char, b: Seq<char>)
    requires
        white_space(w),
    ensures
        tokens(a + seq![w] + b) == tokens(a) + tokens(b),
{
    lemma_tokens(a + seq![w] + b);
    lemma_tokens(a);
    lemma_tokens(b);
    lemma_plain_words_split(a, w, b);
}

/// A run of separators parts the text as one separator does, and a text of
/// separators alone has no tokens.
pub proof fn lemma_tokens_gap(a: Seq<char>, gap: Seq<char>, b: Seq<char>)
    requires
        blank(gap),
    ensures
        tokens(gap) == Seq::<Seq<char>>::empty(),
        gap.len() > 0 ==> tokens(a + gap + b) == tokens(a) + tokens(b),
    decreases gap.len(),
{
    let none = Seq::<char>::empty();
    assert(tokens(none) =~= Seq::<Seq<char>>::empty()) by {
        lemma_tokens(none);
    }
    if gap.len() > 0 {
        let w = gap[0];
        let rest = gap.skip(1);
        lemma_tokens_gap(none, rest, b);
        assert(tokens(rest + b) == tokens(b));
        lemma_tokens_split(a, w, rest + b);
        assert(a + seq![w] + (rest + b) =~= a + gap + b);
        lemma_tokens_split(none, w, rest);
    }
}

/// Whitespace makes no difference: a text stands for the same command
/// whatever run of separators parts two of its pieces, and whatever
/// separators stand around it.
pub proof fn lemma_whitespace_insensitive(
    a: Seq<char>,
    gap: Seq<char>,
    other_gap: Seq<char>,
    b: Seq<char>,
    active: Seq<Seq<char>>,
)
    requires
        blank(gap),
        blank(other_gap),
    ensures
        gap.len() > 0 && other_gap.len() > 0 ==> parsed_text(a + gap + b, active) == parsed_text(
            a + other_gap + b,
            active,
        ),
        parsed_text(gap + a + other_gap, active) == parsed_text(a, active),
{
    let none = Seq::<char>::empty();
    lemma_tokens_gap(a, gap, b);
    lemma_tokens_gap(a, other_gap, b);
    lemma_tokens_gap(none, gap, a + other_gap);
    lemma_tokens_gap(a, other_gap, none);
    assert(none + gap + (a + other_gap) =~= gap + a + other_gap);
}

/// A mention of the bot makes no difference where no `@` stands before it: the
/// text stands for the same command as without the mention.
pub proof fn lemma_mention_ignored(a: Seq<char>, b: Seq<char>, active: Seq<Seq<char>>)
    requires
        !a.contains('@'),
    ensures
        parsed_text(a + mention() + b, active) == parsed_text(a + b, active),
{
    lemma_mention();
    let m = mention();
    lemma_tokens(a + m + b);
    lemma_tokens(a + b);
    lemma_without_prefix(a, m + b, m);
    lemma_without_prefix(a, b, m);
    assert(a + (m + b) =~= a + m + b);
    assert((m + b).take(m.len() as int) =~= m);
    assert((m + b).skip(m.len() as int) =~= b);
}

/// Case makes no difference: two messages with the same lowercase form that
/// both begin with a slash stand for the same command.
pub proof fn lemma_case_insensitive(first: Seq<char>, second: Seq<char>, active: Seq<Seq<char>>)
    requires
        lowercase(first) == lowercase(second),
        first.len() > 0 && first[0] == '/',
        second.len() > 0 && second[0] == '/',
    ensures
        parsed_message(first, active) == parsed_message(second, active),
{
}

/// The verbs are six different texts.
proof fn lemma_verbs()
    ensures
        "/help"@.len() == 5,
        "/start"@.len() == 6,
        "/end"@.len() == 4,
        "/order"@.len() == 6,
        "/cancel"@.len() == 7,
        "/view"@.len() == 5,
        "/start"@[1] == 's',
        "/order"@[1] == 'o',
        "/help"@[1] == 'h',
        "/view"@[1] == 'v',
{
    reveal_strlit("/help");
    reveal_strlit("/start");
    reveal_strlit("/end");
    reveal_strlit("/order");
    reveal_strlit("/cancel");
    reveal_strlit("/view");
}

/// Whether `p` is the refusal of a text that names no order although
/// several are open.
pub open spec fn is_ambiguous(p: Parsed) -> bool {
    match p {
        Ok(_) => false,
        Err(e) => e.kind == ParseErrorKind::AmbiguousOrderName,
    }
}

/// With one order open its name may be left out: `/end` and `/cancel` alone
/// refer to it, and so does `/order` before an item that does not begin with
/// its name.
pub proof fn lemma_inferred_order(name: Seq<char>, item: Seq<Seq<char>>)
    ensures
        parsed_tokens(seq!["/end"@], seq![name]) == Ok::<CommandView, ParseErrorView>(
            CommandView::EndOrder(name),
        ),
        parsed_tokens(seq!["/cancel"@], seq![name]) == Ok::<CommandView, ParseErrorView>(
            CommandView::RemoveItem(name),
        ),
        item.len() > 0 && item[0] != name ==> parsed_tokens(seq!["/order"@] + item, seq![name])
            == Ok::<CommandView, ParseErrorView>(CommandView::AddItem(name, joined(item, " "@))),
{
    lemma_verbs();
    let active = seq![name];
    if item.len() > 0 && item[0] != name {
        assert((seq!["/order"@] + item).skip(1) =~= item);
        assert(!active.contains(item[0])) by {
            if active.contains(item[0]) {
                let i = choose|i: int| 0 <= i < active.len() && active[i] == item[0];
            }
        }
    }
}

/// With several orders open the name of the order cannot be left out:
/// `/end` and `/cancel` alone are refused as ambiguous, and so is `/order`
/// alone or before an item that names none of the orders.
pub proof fn lemma_ambiguous_order(active: Seq<Seq<char>>, item: Seq<char>)
    requires
        active.len() >= 2,
    ensures
        is_ambiguous(parsed_tokens(seq!["/end"@], active)),
        is_ambiguous(parsed_tokens(seq!["/cancel"@], active)),
        is_ambiguous(parsed_tokens(seq!["/order"@], active)),
        !active.contains(item) ==> is_ambiguous(parsed_tokens(seq!["/order"@, item], active)),
{
    lemma_verbs();
}

} // verus!
