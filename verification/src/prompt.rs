//! Prompt templates, their placeholder markers, and prompt assembly.

use vstd::prelude::*;
use vstd::pervasive::unreached;
use crate::ast::RawString;
use crate::diagnostics::Span;
use crate::text::{
    append_chars, contains, find_from, first_match, from_chars, lex_lt, chars_lt, matches_at,
    lemma_first_match_is_match, lemma_lex_lt_irreflexive, lemma_lex_lt_total,
    lemma_lex_lt_transitive, occurs, replace, duplicate_strings, string_views,
    replace_all, slice_chars, str_eq, to_chars, trim, trimmed,
};

verus! {

/// A reference to an input variable inside a template.
#[derive(Debug, Clone, Hash, PartialEq)]
pub struct Variable {
    /// The dotted path that the placeholder refers to, split at the dots.
    pub path: Vec<String>,
    /// The placeholder as it stands in the template.
    pub text: String,
    pub span: Span,
}

/// A block that asks for the description of an enum or of a type.
#[derive(Debug, Clone, Hash, PartialEq)]
pub struct PrinterBlock {
    /// The printer to render with, if one is named.
    pub printer: Option<String>,
    pub target: Variable,
}

/// A block that starts the part of a chat prompt spoken by one role.
#[derive(Debug, Clone, Hash, PartialEq)]
pub struct ChatBlock {
    pub role: String,
    pub span: Span,
}

/// The mathematical content of a [`Variable`].
pub struct VariableView {
    pub path: Seq<Seq<char>>,
    pub text: Seq<char>,
    pub span: Span,
}

/// The mathematical content of a [`PrinterBlock`].
pub struct PrinterBlockView {
    pub printer: Option<Seq<char>>,
    pub target: VariableView,
}

/// The mathematical content of a [`ChatBlock`].
pub struct ChatBlockView {
    pub role: Seq<char>,
    pub span: Span,
}

impl View for Variable {
    type V = VariableView;

    open spec fn view(&self) -> VariableView {
        VariableView { path: string_views(self.path@), text: self.text@, span: self.span }
    }
}

impl View for PrinterBlock {
    type V = PrinterBlockView;

    open spec fn view(&self) -> PrinterBlockView {
        PrinterBlockView {
            printer: match self.printer {
                Some(p) => Some(p@),
                None => None,
            },
            target: self.target@,
        }
    }
}

impl View for ChatBlock {
    type V = ChatBlockView;

    open spec fn view(&self) -> ChatBlockView {
        ChatBlockView { role: self.role@, span: self.span }
    }
}

impl Variable {
    /// The key of the marker: the placeholder text itself.
    pub open spec fn key_spec(&self) -> Seq<char> {
        self.text@
    }

    /// The text that marks this placeholder in the template.
    pub fn key(&self) -> (k: String)
        ensures
            k@ == self.key_spec(),
    {
        self.text.clone()
    }
}

impl PrinterBlock {
    /// The key of the marker: the printer's name and a dot, where a printer
    /// is named, then the placeholder text of the target.
    pub open spec fn key_spec(&self) -> Seq<char> {
        match self.printer {
            Some(p) => p@ + seq!['.'] + self.target.text@,
            None => self.target.text@,
        }
    }

    /// The text that marks this block in the template.
    pub fn key(&self) -> (k: String)
        ensures
            k@ == self.key_spec(),
    {
        match &self.printer {
            Some(p) => {
                let mut out = to_chars(p.as_str());
                out.push('.');
                let target = to_chars(self.target.text.as_str());
                append_chars(&mut out, &target);
                from_chars(&out)
            },
            None => self.target.text.clone(),
        }
    }
}

impl ChatBlock {
    /// The key of the marker: the name of the role.
    pub open spec fn key_spec(&self) -> Seq<char> {
        self.role@
    }

    /// The text that marks this block in the template.
    pub fn key(&self) -> (k: String)
        ensures
            k@ == self.key_spec(),
    {
        self.role.clone()
    }
}

/// A placeholder marker located in a raw prompt.
#[derive(Debug, Clone, Hash, PartialEq)]
pub enum PromptVariable {
    /// Input variable.
    Input(Variable),
    /// Description of an enum.
    Enum(PrinterBlock),
    /// Description of a type.
    Type(PrinterBlock),
    /// Start of a chat part.
    Chat(ChatBlock),
}

/// The mathematical content of a [`PromptVariable`].
pub enum PromptVariableView {
    Input(VariableView),
    Enum(PrinterBlockView),
    Type(PrinterBlockView),
    Chat(ChatBlockView),
}

impl View for PromptVariable {
    type V = PromptVariableView;

    open spec fn view(&self) -> PromptVariableView {
        match self {
            PromptVariable::Input(var) => PromptVariableView::Input(var@),
            PromptVariable::Enum(blk) => PromptVariableView::Enum(blk@),
            PromptVariable::Type(blk) => PromptVariableView::Type(blk@),
            PromptVariable::Chat(blk) => PromptVariableView::Chat(blk@),
        }
    }
}

impl Variable {
    /// A copy of the marker.
    pub fn duplicate(&self) -> (r: Variable)
        ensures
            r@ == self@,
    {
        Variable { path: duplicate_strings(&self.path), text: self.text.clone(), span: self.span }
    }
}

impl PrinterBlock {
    /// A copy of the block.
    pub fn duplicate(&self) -> (r: PrinterBlock)
        ensures
            r@ == self@,
    {
        PrinterBlock {
            printer: match &self.printer {
                Some(p) => Some(p.clone()),
                None => None,
            },
            target: self.target.duplicate(),
        }
    }
}

impl ChatBlock {
    /// A copy of the block.
    pub fn duplicate(&self) -> (r: ChatBlock)
        ensures
            r@ == self@,
    {
        ChatBlock { role: self.role.clone(), span: self.span }
    }
}

impl PromptVariable {
    /// A copy of the marker.
    pub fn duplicate(&self) -> (r: PromptVariable)
        ensures
            r@ == self@,
    {
        match self {
            PromptVariable::Input(v) => PromptVariable::Input(v.duplicate()),
            PromptVariable::Enum(b) => PromptVariable::Enum(b.duplicate()),
            PromptVariable::Type(b) => PromptVariable::Type(b.duplicate()),
            PromptVariable::Chat(c) => PromptVariable::Chat(c.duplicate()),
        }
    }

    pub open spec fn key_spec(&self) -> Seq<char> {
        match self {
            PromptVariable::Input(var) => var.key_spec(),
            PromptVariable::Enum(blk) => blk.key_spec(),
            PromptVariable::Type(blk) => blk.key_spec(),
            PromptVariable::Chat(blk) => blk.key_spec(),
        }
    }

    /// The key of the marker, by its kind.
    pub fn key(&self) -> (k: String)
        ensures
            k@ == self.key_spec(),
    {
        match self {
            PromptVariable::Input(var) => var.key(),
            PromptVariable::Enum(blk) => blk.key(),
            PromptVariable::Type(blk) => blk.key(),
            PromptVariable::Chat(blk) => blk.key(),
        }
    }
}

/// A string of the schema with the places it was written at.
#[derive(Debug, Clone)]
pub struct StringValue {
    pub value: String,
    pub span: Span,
    pub key_span: Span,
}

/// Position of an adapter among the adapters of its variant.
#[derive(Clone, Copy, Debug, PartialEq, Eq, Structural)]
pub struct AdapterId(pub usize);

/// What a variant binds: its client, its prompt and what goes with it.
#[derive(Debug)]
pub struct VariantProperties {
    pub client: StringValue,
    pub prompt: StringValue,
    /// The markers located in the prompt, in the order of the text.
    pub prompt_replacements: Vec<PromptVariable>,
    /// What each marker is replaced by: input markers and printer blocks
    /// with their replacement text, each list in declaration order, and the
    /// chat blocks in declaration order. In the first two lists a key stands
    /// once (`keys_once`): linking the markers passes over a marker whose key
    /// an earlier one has.
    pub replacers: (Vec<(Variable, String)>, Vec<(PrinterBlock, String)>, Vec<ChatBlock>),
    /// The adapter for the input, if one was accepted: its position and its
    /// implementations.
    pub input_adapter: Option<(AdapterId, Vec<RawString>)>,
    /// The adapter for the output, if one was accepted: its position and
    /// its implementations.
    pub output_adapter: Option<(AdapterId, Vec<RawString>)>,
}

/// The representation of an assembled prompt.
pub enum PromptAst<'a> {
    /// A prompt in one piece, and the input replacements that were used.
    String(String, Vec<(String, String)>),
    /// A prompt in parts, each with the chat block that owns it (none for
    /// text before the first block), and the input replacements that were used.
    Chat(Vec<(Option<&'a ChatBlock>, String)>, Vec<(String, String)>),
}

/// A chat marker found in a text: which chat block, and where its key stands.
pub struct Marker {
    pub chat: int,
    pub start: int,
    pub end: int,
}

/// One replacement step: `pair.0` replaced by `pair.1` wherever it occurs.
pub open spec fn replaced(text: Seq<char>, pair: (Seq<char>, Seq<char>)) -> Seq<char> {
    replace_all(text, pair.0, pair.1)
}

/// The text after the given replacements, applied one after the other.
pub open spec fn apply_all(text: Seq<char>, pairs: Seq<(Seq<char>, Seq<char>)>) -> Seq<char>
    decreases pairs.len(),
{
    if pairs.len() == 0 {
        text
    } else {
        replaced(apply_all(text, pairs.drop_last()), pairs.last())
    }
}

/// The input replacements whose key occurs in the template, in the order
/// of the table. Whether a replacement is used depends on the template alone,
/// not on what other replacements make of it.
pub open spec fn consumed_inputs(template: Seq<char>, pairs: Seq<(Seq<char>, Seq<char>)>) -> Seq<
    (Seq<char>, Seq<char>),
>
    decreases pairs.len(),
{
    if pairs.len() == 0 {
        Seq::empty()
    } else if occurs(template, pairs.last().0) {
        consumed_inputs(template, pairs.drop_last()).push(pairs.last())
    } else {
        consumed_inputs(template, pairs.drop_last())
    }
}

/// One of the pairs has the key.
pub open spec fn holds_key(pairs: Seq<(Seq<char>, Seq<char>)>, key: Seq<char>) -> bool {
    exists|i: int| 0 <= i < pairs.len() && (#[trigger] pairs[i]).0 == key
}

/// No key stands twice among the pairs.
pub open spec fn keys_once(pairs: Seq<(Seq<char>, Seq<char>)>) -> bool {
    forall|i: int, j: int|
        0 <= i < j < pairs.len() ==> (#[trigger] pairs[i]).0 != (#[trigger] pairs[j]).0
}

/// The inputs that are used are exactly the pairs of the table whose key
/// occurs in the template. Where no key stands twice in the table, none
/// stands twice among them.
pub proof fn lemma_consumed_inputs(template: Seq<char>, pairs: Seq<(Seq<char>, Seq<char>)>)
    ensures
        forall|p: (Seq<char>, Seq<char>)|
            consumed_inputs(template, pairs).contains(p) <==> pairs.contains(p) && occurs(
                template,
                p.0,
            ),
        keys_once(pairs) ==> keys_once(consumed_inputs(template, pairs)),
    decreases pairs.len(),
{
    let used = consumed_inputs(template, pairs);
    if pairs.len() > 0 {
        let head = pairs.drop_last();
        let last = pairs.last();
        let before = consumed_inputs(template, head);
        lemma_consumed_inputs(template, head);
        assert forall|p: (Seq<char>, Seq<char>)| used.contains(p) <==> pairs.contains(p) && occurs(
            template,
            p.0,
        ) by {
            assert(before.contains(p) <==> head.contains(p) && occurs(template, p.0));
            if used.contains(p) {
                let i = choose|i: int| 0 <= i < used.len() && used[i] == p;
                if i < before.len() {
                    assert(before[i] == p);
                    let j = choose|j: int| 0 <= j < head.len() && head[j] == p;
                    assert(pairs[j] == p);
                } else {
                    assert(pairs[pairs.len() - 1] == p);
                }
            }
            if pairs.contains(p) && occurs(template, p.0) {
                let j = choose|j: int| 0 <= j < pairs.len() && pairs[j] == p;
                if j < head.len() {
                    assert(head[j] == p);
                    let i = choose|i: int| 0 <= i < before.len() && before[i] == p;
                    assert(used[i] == p);
                } else {
                    assert(used[used.len() - 1] == p);
                }
            }
        }
        if keys_once(pairs) {
            assert(keys_once(head)) by {
                assert forall|i: int, j: int| 0 <= i < j < head.len() implies (#[trigger] head[i]).0
                    != (#[trigger] head[j]).0 by {
                    assert(pairs[i].0 != pairs[j].0);
                }
            }
            assert forall|i: int, j: int| 0 <= i < j < used.len() implies (#[trigger] used[i]).0
                != (#[trigger] used[j]).0 by {
                if j < before.len() {
                    assert(before[i].0 != before[j].0);
                } else {
                    let p = before[i];
                    assert(used[i] == p && used[j] == last);
                    assert(before.contains(p));
                    assert(head.contains(p) && occurs(template, p.0));
                    let q = choose|q: int| 0 <= q < head.len() && head[q] == p;
                    assert(pairs[q] == p);
                    assert(pairs[q].0 != pairs[pairs.len() - 1].0);
                }
            }
        }
    }
}

/// Where the search for the next chat marker starts.
pub open spec fn cursor_after(markers: Seq<Marker>) -> int {
    if markers.len() == 0 {
        0
    } else {
        markers.last().end
    }
}

/// The chat markers found in `text`: each key, in declaration order, is
/// searched from the end of the marker found before it; a key that does not
/// occur there is passed over.
pub open spec fn locate(text: Seq<char>, keys: Seq<Seq<char>>) -> Seq<Marker>
    decreases keys.len(),
{
    if keys.len() == 0 {
        Seq::empty()
    } else {
        let found = locate(text, keys.drop_last());
        match first_match(text, keys.last(), cursor_after(found)) {
            Some(i) => found.push(
                Marker { chat: keys.len() - 1, start: i, end: i + keys.last().len() },
            ),
            None => found,
        }
    }
}

/// Where the part owned by marker `j` ends: at the next marker, or at the
/// end of the text.
pub open spec fn part_end(text: Seq<char>, markers: Seq<Marker>, j: int) -> int {
    if j + 1 < markers.len() {
        markers[j + 1].start
    } else {
        text.len() as int
    }
}

/// The trimmed, non-empty parts of `text` up to and including the part of
/// the `n`-th marker, each with the index of the chat block that owns it. The
/// text before the first marker, if any, has no owner.
pub open spec fn chat_parts(text: Seq<char>, markers: Seq<Marker>, n: int) -> Seq<
    (Option<int>, Seq<char>),
>
    decreases n,
{
    if n <= 0 {
        if markers.len() > 0 && markers[0].start > 0 && trimmed(
            text.subrange(0, markers[0].start),
        ).len() > 0 {
            seq![(None, trimmed(text.subrange(0, markers[0].start)))]
        } else {
            Seq::empty()
        }
    } else {
        let before = chat_parts(text, markers, n - 1);
        let body = trimmed(
            text.subrange(markers[n - 1].end, part_end(text, markers, n - 1)),
        );
        if body.len() == 0 {
            before
        } else {
            before.push((Some(markers[n - 1].chat), body))
        }
    }
}

/// Strict order on pairs: by the first component, then by the second.
pub open spec fn pair_lt(p: (Seq<char>, Seq<char>), q: (Seq<char>, Seq<char>)) -> bool {
    lex_lt(p.0, q.0) || (p.0 == q.0 && lex_lt(p.1, q.1))
}

/// No pair stands before a pair that is strictly smaller.
pub open spec fn sorted_pairs(s: Seq<(Seq<char>, Seq<char>)>) -> bool {
    forall|i: int, j: int| 0 <= i < j < s.len() ==> !pair_lt(#[trigger] s[j], #[trigger] s[i])
}

/// The views of a list of pairs of strings.
pub open spec fn pair_views(v: Seq<(String, String)>) -> Seq<(Seq<char>, Seq<char>)> {
    Seq::new(v.len(), |i: int| (v[i].0@, v[i].1@))
}

/// The keys and replacement texts of the input markers.
pub open spec fn input_pairs(v: Seq<(Variable, String)>) -> Seq<(Seq<char>, Seq<char>)> {
    Seq::new(v.len(), |i: int| (v[i].0.key_spec(), v[i].1@))
}

/// The keys and replacement texts of the printer blocks.
pub open spec fn printer_pairs(v: Seq<(PrinterBlock, String)>) -> Seq<(Seq<char>, Seq<char>)> {
    Seq::new(v.len(), |i: int| (v[i].0.key_spec(), v[i].1@))
}

/// The keys of the chat blocks.
pub open spec fn chat_keys(v: Seq<ChatBlock>) -> Seq<Seq<char>> {
    Seq::new(v.len(), |i: int| v[i].key_spec())
}

/// `used` holds the pairs of `consumed`, each as often as there, in order.
pub open spec fn is_sorted_listing(
    used: Seq<(Seq<char>, Seq<char>)>,
    consumed: Seq<(Seq<char>, Seq<char>)>,
) -> bool {
    sorted_pairs(used) && used.to_multiset() == consumed.to_multiset()
}

/// The parts hold the expected texts, and each is owned by the chat block
/// with the expected index.
pub open spec fn parts_are(
    parts: Seq<(Option<&ChatBlock>, String)>,
    chats: Seq<ChatBlock>,
    expected: Seq<(Option<int>, Seq<char>)>,
) -> bool {
    &&& parts.len() == expected.len()
    &&& forall|i: int|
        0 <= i < parts.len() ==> {
            &&& (#[trigger] parts[i]).1@ == expected[i].1
            &&& match expected[i].0 {
                Some(c) => 0 <= c < chats.len() && parts[i].0 == Some(&chats[c]),
                None => parts[i].0 is None,
            }
        }
}

/// The order on pairs is transitive.
pub proof fn lemma_pair_lt_transitive(
    p: (Seq<char>, Seq<char>),
    q: (Seq<char>, Seq<char>),
    r: (Seq<char>, Seq<char>),
)
    requires
        pair_lt(p, q),
        pair_lt(q, r),
    ensures
        pair_lt(p, r),
{
    if lex_lt(p.0, q.0) && lex_lt(q.0, r.0) {
        lemma_lex_lt_transitive(p.0, q.0, r.0);
    } else if p.0 == q.0 && q.0 == r.0 {
        lemma_lex_lt_transitive(p.1, q.1, r.1);
    }
}

/// Of two different pairs one comes before the other.
pub proof fn lemma_pair_lt_total(p: (Seq<char>, Seq<char>), q: (Seq<char>, Seq<char>))
    ensures
        p == q || pair_lt(p, q) || pair_lt(q, p),
{
    lemma_lex_lt_total(p.0, q.0);
    lemma_lex_lt_total(p.1, q.1);
}

/// A list of pairs has one sorted listing only: two sorted lists that hold
/// the same pairs, each as often as the other, are the same list.
pub proof fn lemma_sorted_listing_unique(
    a: Seq<(Seq<char>, Seq<char>)>,
    b: Seq<(Seq<char>, Seq<char>)>,
)
    requires
        sorted_pairs(a),
        sorted_pairs(b),
        a.to_multiset() == b.to_multiset(),
    ensures
        a == b,
    decreases a.len(),
{
    vstd::seq_lib::to_multiset_len(a);
    vstd::seq_lib::to_multiset_len(b);
    if a.len() > 0 {
        let x = a.last();
        let y = b.last();
        vstd::seq_lib::to_multiset_contains(a, x);
        vstd::seq_lib::to_multiset_contains(b, x);
        vstd::seq_lib::to_multiset_contains(a, y);
        vstd::seq_lib::to_multiset_contains(b, y);
        assert(a.contains(x)) by {
            assert(a[a.len() - 1] == x);
        }
        assert(b.contains(y)) by {
            assert(b[b.len() - 1] == y);
        }
        // each of the two last pairs stands in the other list, at or before its end
        let i = choose|i: int| 0 <= i < b.len() && b[i] == x;
        let j = choose|j: int| 0 <= j < a.len() && a[j] == y;
        assert(!pair_lt(y, x)) by {
            if i < b.len() - 1 {
                assert(!pair_lt(b[b.len() - 1], b[i]));
            } else {
                lemma_lex_lt_irreflexive(x.0);
                lemma_lex_lt_irreflexive(x.1);
            }
        }
        assert(!pair_lt(x, y)) by {
            if j < a.len() - 1 {
                assert(!pair_lt(a[a.len() - 1], a[j]));
            } else {
                lemma_lex_lt_irreflexive(y.0);
                lemma_lex_lt_irreflexive(y.1);
            }
        }
        lemma_pair_lt_total(x, y);
        assert(x == y);
        vstd::seq_lib::to_multiset_remove(a, a.len() - 1);
        vstd::seq_lib::to_multiset_remove(b, b.len() - 1);
        assert(a.remove(a.len() - 1) =~= a.drop_last());
        assert(b.remove(b.len() - 1) =~= b.drop_last());
        assert forall|m: int, n: int| 0 <= m < n < a.drop_last().len() implies !pair_lt(
            #[trigger] a.drop_last()[n],
            #[trigger] a.drop_last()[m],
        ) by {
            assert(!pair_lt(a[n], a[m]));
        }
        assert forall|m: int, n: int| 0 <= m < n < b.drop_last().len() implies !pair_lt(
            #[trigger] b.drop_last()[n],
            #[trigger] b.drop_last()[m],
        ) by {
            assert(!pair_lt(b[n], b[m]));
        }
        lemma_sorted_listing_unique(a.drop_last(), b.drop_last());
        assert(a =~= a.drop_last().push(x));
        assert(b =~= b.drop_last().push(y));
    } else {
        assert(a =~= b);
    }
}

fn pair_before(p: &(Vec<char>, Vec<char>), q: &(Vec<char>, Vec<char>)) -> (r: bool)
    ensures
        r == pair_lt((p.0@, p.1@), (q.0@, q.1@)),
{
    if chars_lt(&p.0, &q.0) {
        true
    } else if crate::text::chars_eq(&p.0, &q.0) {
        chars_lt(&p.1, &q.1)
    } else {
        false
    }
}

/// `found` holds the markers, which lie in the text one behind the other and
/// belong to chat blocks below `chat_count`.
spec fn tracks(
    found: Seq<(usize, usize, usize)>,
    markers: Seq<Marker>,
    text_len: int,
    chat_count: int,
) -> bool {
    &&& found.len() == markers.len()
    &&& forall|m: int|
        0 <= m < found.len() ==> {
            &&& (#[trigger] found[m]).0 == markers[m].chat
            &&& found[m].1 == markers[m].start
            &&& found[m].2 == markers[m].end
            &&& found[m].0 < chat_count
            &&& found[m].1 <= found[m].2 <= text_len
            &&& m + 1 < found.len() ==> found[m].2 <= found[m + 1].1
        }
}

spec fn char_pair_views(v: Seq<(Vec<char>, Vec<char>)>) -> Seq<(Seq<char>, Seq<char>)> {
    Seq::new(v.len(), |i: int| (v[i].0@, v[i].1@))
}

/// Puts `item` into the sorted list, behind the pairs that are not greater.
fn insert_sorted(list: &mut Vec<(Vec<char>, Vec<char>)>, item: (Vec<char>, Vec<char>))
    requires
        sorted_pairs(char_pair_views(old(list)@)),
    ensures
        sorted_pairs(char_pair_views(final(list)@)),
        char_pair_views(final(list)@).to_multiset() == char_pair_views(
            old(list)@,
        ).to_multiset().insert((item.0@, item.1@)),
{
    let ghost before = char_pair_views(list@);
    let ghost x = (item.0@, item.1@);
    let mut k: usize = 0;
    while k < list.len() && !pair_before(&item, &list[k])
        invariant
            k <= list.len(),
            list@ == old(list)@,
            x == (item.0@, item.1@),
            before == char_pair_views(list@),
            forall|i: int| 0 <= i < k ==> !pair_lt(x, #[trigger] before[i]),
        decreases list.len() - k,
    {
        k += 1;
    }
    list.insert(k, item);
    proof {
        let after = char_pair_views(list@);
        assert(after =~= before.insert(k as int, x));
        vstd::seq_lib::to_multiset_insert(before, k as int, x);
        assert forall|i: int, j: int| 0 <= i < j < after.len() implies !pair_lt(
            #[trigger] after[j],
            #[trigger] after[i],
        ) by {
            if j == k {
                // after[i] is an old element that is not greater than x
            } else if i == k {
                // after[j] is an old element at or after position k
                if pair_lt(after[j], x) {
                    lemma_pair_lt_transitive(after[j], x, before[k as int]);
                    if j - 1 > k {
                        assert(!pair_lt(before[j - 1], before[k as int]));
                    } else {
                        lemma_lex_lt_irreflexive(before[k as int].0);
                        lemma_lex_lt_irreflexive(before[k as int].1);
                    }
                }
            } else {
                let bi = if i < k { i } else { i - 1 };
                let bj = if j < k { j } else { j - 1 };
                assert(!pair_lt(before[bj], before[bi]));
            }
        }
    }
}

impl VariantProperties {
    /// The input replacements that are used: those whose key occurs in the
    /// template, in the order of the table.
    pub open spec fn consumed(&self) -> Seq<(Seq<char>, Seq<char>)> {
        consumed_inputs(self.prompt.value@, input_pairs(self.replacers.0@))
    }

    /// The template after the input replacements that are used, and then
    /// every printer block, were made, one after the other in the order of
    /// the tables. A replacement is made wherever its key stands when its turn
    /// comes, so also inside a text that an earlier replacement put in. An
    /// input whose key does not occur in the template is not replaced at all,
    /// even where the text of an earlier replacement holds its key.
    pub open spec fn substituted(&self) -> Seq<char> {
        apply_all(apply_all(self.prompt.value@, self.consumed()), printer_pairs(self.replacers.1@))
    }

    /// The chat markers found in the substituted template.
    pub open spec fn markers(&self) -> Seq<Marker> {
        locate(self.substituted(), chat_keys(self.replacers.2@))
    }

    /// Chat blocks are declared and none of them is found in the substituted
    /// template: the prompt cannot be assembled.
    pub open spec fn chats_lost(&self) -> bool {
        self.replacers.2@.len() > 0 && self.markers().len() == 0
    }

    /// `result` is the prompt assembled from these properties.
    pub open spec fn assembles_to(&self, result: PromptAst<'_>) -> bool {
        match result {
            PromptAst::String(text, used) => {
                &&& self.replacers.2@.len() == 0
                &&& text@ == self.substituted()
                &&& is_sorted_listing(pair_views(used@), self.consumed())
            },
            PromptAst::Chat(parts, used) => {
                &&& self.replacers.2@.len() > 0
                &&& parts_are(
                    parts@,
                    self.replacers.2@,
                    chat_parts(self.substituted(), self.markers(), self.markers().len() as int),
                )
                &&& is_sorted_listing(pair_views(used@), self.consumed())
            },
        }
    }

    /// The first implementation of the output adapter written in `language`.
    pub open spec fn adapter_index(impls: Seq<RawString>, language: Seq<char>, n: int) -> Option<
        int,
    >
        decreases n,
    {
        if n <= 0 {
            None
        } else {
            match Self::adapter_index(impls, language, n - 1) {
                Some(i) => Some(i),
                None => match impls[n - 1].language {
                    Some(l) => if l@ == language {
                        Some(n - 1)
                    } else {
                        None
                    },
                    None => None,
                },
            }
        }
    }

    /// The text of the output adapter for `language`: that of the first
    /// implementation tagged with it.
    #[verifier::loop_isolation(false)]
    pub fn output_adapter_for_language(&self, language: &str) -> (r: Option<&str>)
        ensures
            match self.output_adapter {
                None => r is None,
                Some(adapter) => match Self::adapter_index(
                    adapter.1@,
                    language@,
                    adapter.1@.len() as int,
                ) {
                    Some(i) => {
                        &&& 0 <= i < adapter.1@.len()
                        &&& r matches Some(text)
                        &&& text@ == adapter.1@[i].value@
                    },
                    None => r is None,
                },
            },
    {
        match &self.output_adapter {
            None => None,
            Some(adapter) => {
                let impls = &adapter.1;
                let mut i: usize = 0;
                while i < impls.len()
                    invariant
                        i <= impls.len(),
                        Self::adapter_index(impls@, language@, i as int) is None,
                    decreases impls.len() - i,
                {
                    let hit = match &impls[i].language {
                        Some(l) => str_eq(l.as_str(), language),
                        None => false,
                    };
                    if hit {
                        proof {
                            assert(Self::adapter_index(impls@, language@, i + 1) == Some(
                                i as int,
                            ));
                            Self::lemma_adapter_index_stable(
                                impls@,
                                language@,
                                i + 1,
                                impls@.len() as int,
                            );
                        }
                        return Some(impls[i].value());
                    }
                    i += 1;
                }
                None
            },
        }
    }

    proof fn lemma_adapter_index_stable(impls: Seq<RawString>, language: Seq<char>, n: int, m: int)
        requires
            0 <= n <= m,
            Self::adapter_index(impls, language, n) is Some,
        ensures
            Self::adapter_index(impls, language, m) == Self::adapter_index(impls, language, n),
        decreases m - n,
    {
        if n < m {
            Self::lemma_adapter_index_stable(impls, language, n, m - 1);
        }
    }

    /// Assembles the prompt, or gives `None` where chat blocks are declared
    /// and none of them is found in the substituted template.
    pub fn try_to_prompt(&self) -> (r: Option<PromptAst<'_>>)
        ensures
            r is None <==> self.chats_lost(),
            r matches Some(p) ==> self.assembles_to(p),
    {
        let inputs = &self.replacers.0;
        let printers = &self.replacers.1;
        let chats = &self.replacers.2;
        let ghost ipairs = input_pairs(inputs@);
        let ghost ppairs = printer_pairs(printers@);
        let ghost template = self.prompt.value@;

        // Replace the inputs whose key stands in the template, and remember them.
        let source = to_chars(self.prompt.value.as_str());
        let mut text = to_chars(self.prompt.value.as_str());
        let mut used: Vec<(Vec<char>, Vec<char>)> = Vec::new();
        let mut i: usize = 0;
        proof {
            assert(char_pair_views(used@) =~= Seq::empty());
            assert(ipairs.take(0) =~= Seq::empty());
        }
        while i < inputs.len()
            invariant
                i <= inputs.len(),
                ipairs == input_pairs(inputs@),
                source@ == template,
                text@ == apply_all(template, consumed_inputs(template, ipairs.take(i as int))),
                sorted_pairs(char_pair_views(used@)),
                char_pair_views(used@).to_multiset() == consumed_inputs(
                    template,
                    ipairs.take(i as int),
                ).to_multiset(),
            decreases inputs.len() - i,
        {
            let key = to_chars(inputs[i].0.text.as_str());
            let value = to_chars(inputs[i].1.as_str());
            proof {
                assert(ipairs.take(i + 1).drop_last() =~= ipairs.take(i as int));
                assert(ipairs.take(i + 1).last() == (key@, value@));
            }
            if contains(&source, &key) {
                text = replace(&text, &key, &value);
                proof {
                    let earlier = consumed_inputs(template, ipairs.take(i as int));
                    vstd::seq_lib::to_multiset_build(earlier, (key@, value@));
                    assert(earlier.push((key@, value@)).drop_last() =~= earlier);
                }
                insert_sorted(&mut used, (key, value));
            }
            i += 1;
        }
        proof {
            assert(ipairs.take(inputs@.len() as int) =~= ipairs);
        }

        // Replace every printer block.
        let ghost after_inputs = text@;
        let mut j: usize = 0;
        proof {
            assert(ppairs.take(0) =~= Seq::empty());
        }
        while j < printers.len()
            invariant
                j <= printers.len(),
                ppairs == printer_pairs(printers@),
                text@ == apply_all(after_inputs, ppairs.take(j as int)),
            decreases printers.len() - j,
        {
            let key = to_chars(printers[j].0.key().as_str());
            let value = to_chars(printers[j].1.as_str());
            proof {
                assert(ppairs.take(j + 1).drop_last() =~= ppairs.take(j as int));
                assert(ppairs.take(j + 1).last() == (key@, value@));
            }
            text = replace(&text, &key, &value);
            j += 1;
        }
        proof {
            assert(ppairs.take(printers@.len() as int) =~= ppairs);
            assert(text@ == self.substituted());
        }

        // Hand the used inputs out as strings.
        let mut used_inputs: Vec<(String, String)> = Vec::new();
        let mut u: usize = 0;
        while u < used.len()
            invariant
                u <= used.len(),
                used_inputs@.len() == u,
                pair_views(used_inputs@) == char_pair_views(used@).take(u as int),
            decreases used.len() - u,
        {
            let k = from_chars(&used[u].0);
            let v = from_chars(&used[u].1);
            let ghost earlier = pair_views(used_inputs@);
            used_inputs.push((k, v));
            proof {
                let now = pair_views(used_inputs@);
                let want = char_pair_views(used@).take(u + 1);
                assert(now.len() == want.len());
                assert forall|q: int| 0 <= q < now.len() implies now[q] == want[q] by {
                    if q < u {
                        assert(now[q] == earlier[q]);
                        assert(earlier[q] == char_pair_views(used@).take(u as int)[q]);
                    }
                }
                assert(now =~= want);
            }
            u += 1;
        }
        proof {
            assert(char_pair_views(used@).take(used@.len() as int) =~= char_pair_views(used@));
        }

        if chats.len() == 0 {
            return Some(PromptAst::String(from_chars(&text), used_inputs));
        }
        // Find the chat markers, each searched behind the one before it.

        let ghost keys = chat_keys(chats@);
        let mut found: Vec<(usize, usize, usize)> = Vec::new();
        let mut cursor: usize = 0;
        let mut c: usize = 0;
        proof {
            assert(keys.take(0) =~= Seq::empty());
        }
        while c < chats.len()
            invariant
                c <= chats.len(),
                keys == chat_keys(chats@),
                cursor <= text@.len(),
                cursor == cursor_after(locate(text@, keys.take(c as int))),
                tracks(found@, locate(text@, keys.take(c as int)), text@.len() as int, c as int),
            decreases chats.len() - c,
        {
            let key = to_chars(chats[c].role.as_str());
            let ghost earlier = locate(text@, keys.take(c as int));
            proof {
                assert(keys.take(c + 1).drop_last() =~= keys.take(c as int));
                assert(keys.take(c + 1).last() == key@);
                lemma_first_match_is_match(text@, key@, cursor as int);
            }
            let ghost found_before = found@;
            match find_from(&text, &key, cursor) {
                Some(at) => {
                    assert(matches_at(text@, key@, at as int));
                    assert(at + key@.len() <= text.len());
                    let end = at + key.len();
                    found.push((c, at, end));
                    cursor = end;
                    proof {
                        let now = locate(text@, keys.take(c + 1));
                        assert(now == earlier.push(
                            Marker { chat: c as int, start: at as int, end: end as int },
                        ));
                        assert forall|m: int| 0 <= m < found@.len() implies {
                            &&& (#[trigger] found@[m]).0 == now[m].chat
                            &&& found@[m].1 == now[m].start
                            &&& found@[m].2 == now[m].end
                            &&& found@[m].0 < c + 1
                            &&& found@[m].1 <= found@[m].2 <= text@.len()
                            &&& m + 1 < found@.len() ==> found@[m].2 <= found@[m + 1].1
                        } by {
                            if m < earlier.len() {
                                assert(found@[m] == found_before[m]);
                                assert(now[m] == earlier[m]);
                                if m + 1 == earlier.len() {
                                    assert(found_before[m].2 == cursor_after(earlier));
                                }
                            }
                        }
                    }
                },
                None => {
                    proof {
                        assert(locate(text@, keys.take(c + 1)) == earlier);
                        assert forall|m: int| 0 <= m < found@.len() implies (#[trigger] found@[m]).0
                            < c + 1 by {}
                    }
                },
            }
            c += 1;
        }
        proof {
            assert(keys.take(chats@.len() as int) =~= keys);
        }
        let ghost markers = self.markers();
        proof {
            assert(markers == locate(text@, keys));
        }
        if found.len() == 0 {
            return None;
        }
        proof {
            assert(found@[0].1 <= text@.len());
        }

        // Cut the text into parts, each owned by the marker before it.
        let mut parts: Vec<(Option<&ChatBlock>, String)> = Vec::new();
        let first_start = found[0].1;
        if first_start > 0 {
            let lead = trim(&slice_chars(&text, 0, first_start));
            if lead.len() > 0 {
                parts.push((None, from_chars(&lead)));
            }
        }
        let mut n: usize = 0;
        while n < found.len()
            invariant
                n <= found.len(),
                tracks(found@, markers, text@.len() as int, chats@.len() as int),
                parts_are(parts@, chats@, chat_parts(text@, markers, n as int)),
            decreases found.len() - n,
        {
            let start = found[n].2;
            let end = if n + 1 < found.len() {
                found[n + 1].1
            } else {
                text.len()
            };
            proof {
                assert(found@[n as int].2 == markers[n as int].end);
                if n + 1 < found.len() {
                    assert(found@[n + 1].1 == markers[n + 1].start);
                }
                assert(end == part_end(text@, markers, n as int));
                assert(found@[n as int].0 < chats@.len());
            }
            let body = trim(&slice_chars(&text, start, end));
            if body.len() > 0 {
                let chat = &chats[found[n].0];
                parts.push((Some(chat), from_chars(&body)));
            }
            n += 1;
        }
        Some(PromptAst::Chat(parts, used_inputs))
    }

    /// Assembles the prompt.
    pub fn to_prompt(&self) -> (r: PromptAst<'_>)
        requires
            !self.chats_lost(),
        ensures
            self.assembles_to(r),
    {
        match self.try_to_prompt() {
            Some(p) => p,
            None => unreached(),
        }
    }
}

} // verus!
