//! The last step of building a database: the markers of each prompt are
//! linked to what replaces them.

use vstd::prelude::*;
use crate::parser_database::ParserDatabase;
use crate::prompt::{
    chat_keys, holds_key, input_pairs, keys_once, printer_pairs, ChatBlock, PrinterBlock,
    PromptVariable, Variable, VariantProperties,
};
use crate::text::str_eq;
use crate::top::Top;

verus! {

/// The input markers among the first `n` markers, each bound to its own
/// key, in order. A key stands once: a marker whose key an earlier marker
/// has is passed over.
pub open spec fn linked_inputs(markers: Seq<PromptVariable>, n: nat) -> Seq<(Seq<char>, Seq<char>)>
    decreases n,
{
    if n == 0 || n > markers.len() {
        Seq::empty()
    } else {
        let before = linked_inputs(markers, (n - 1) as nat);
        match markers[n - 1] {
            PromptVariable::Input(v) => if holds_key(before, v.key_spec()) {
                before
            } else {
                before.push((v.key_spec(), v.key_spec()))
            },
            _ => before,
        }
    }
}

/// What a printer block is replaced by: the template of the printer it
/// names, or its own key where it names none or there is no such printer.
pub open spec fn printer_text(db: ParserDatabase, block: PrinterBlock) -> Seq<char> {
    match block.printer {
        Some(name) => match db.configuration_named(name@, "printer"@) {
            Some(i) => if db.types.printers@.contains_key(i as usize) {
                db.types.printers@[i as usize].printer().template.0@
            } else {
                block.key_spec()
            },
            None => block.key_spec(),
        },
        None => block.key_spec(),
    }
}

/// The table of printer blocks with one more block: as it was where the
/// key of the block stands in it, else with the block and what replaces it
/// put last.
pub open spec fn with_printer(
    db: ParserDatabase,
    before: Seq<(Seq<char>, Seq<char>)>,
    block: PrinterBlock,
) -> Seq<(Seq<char>, Seq<char>)> {
    if holds_key(before, block.key_spec()) {
        before
    } else {
        before.push((block.key_spec(), printer_text(db, block)))
    }
}

/// The printer blocks among the first `n` markers, each with what
/// replaces it, in order. A key stands once: a block whose key an earlier
/// block has is passed over.
pub open spec fn linked_printers(db: ParserDatabase, markers: Seq<PromptVariable>, n: nat) -> Seq<
    (Seq<char>, Seq<char>),
>
    decreases n,
{
    if n == 0 || n > markers.len() {
        Seq::empty()
    } else {
        let before = linked_printers(db, markers, (n - 1) as nat);
        match markers[n - 1] {
            PromptVariable::Enum(b) => with_printer(db, before, b),
            PromptVariable::Type(b) => with_printer(db, before, b),
            _ => before,
        }
    }
}

/// No key stands twice among the input markers that are linked.
pub proof fn lemma_linked_inputs_once(markers: Seq<PromptVariable>, n: nat)
    ensures
        keys_once(linked_inputs(markers, n)),
    decreases n,
{
    if n > 0 && n <= markers.len() {
        lemma_linked_inputs_once(markers, (n - 1) as nat);
    }
}

/// No key stands twice among the printer blocks that are linked.
pub proof fn lemma_linked_printers_once(db: ParserDatabase, markers: Seq<PromptVariable>, n: nat)
    ensures
        keys_once(linked_printers(db, markers, n)),
    decreases n,
{
    if n > 0 && n <= markers.len() {
        lemma_linked_printers_once(db, markers, (n - 1) as nat);
    }
}

/// The keys of the chat blocks among the first `n` markers, in order.
pub open spec fn linked_chats(markers: Seq<PromptVariable>, n: nat) -> Seq<Seq<char>>
    decreases n,
{
    if n == 0 || n > markers.len() {
        Seq::empty()
    } else {
        match markers[n - 1] {
            PromptVariable::Chat(c) => linked_chats(markers, (n - 1) as nat).push(c.key_spec()),
            _ => linked_chats(markers, (n - 1) as nat),
        }
    }
}

/// The replacement tables of `p` are those of its markers. In the table of
/// the input markers and in that of the printer blocks no key stands twice.
pub open spec fn is_linked(p: VariantProperties, db: ParserDatabase) -> bool {
    let markers = p.prompt_replacements@;
    &&& input_pairs(p.replacers.0@) == linked_inputs(markers, markers.len())
    &&& printer_pairs(p.replacers.1@) == linked_printers(db, markers, markers.len())
    &&& chat_keys(p.replacers.2@) == linked_chats(markers, markers.len())
    &&& keys_once(input_pairs(p.replacers.0@))
    &&& keys_once(printer_pairs(p.replacers.1@))
}

/// `after` is `before` with other replacement tables.
pub open spec fn same_binding(after: VariantProperties, before: VariantProperties) -> bool {
    &&& after.client == before.client
    &&& after.prompt == before.prompt
    &&& after.prompt_replacements == before.prompt_replacements
    &&& after.input_adapter == before.input_adapter
    &&& after.output_adapter == before.output_adapter
}

/// What a printer block is replaced by.
fn text_for(db: &ParserDatabase, block: &PrinterBlock) -> (r: String)
    ensures
        r@ == printer_text(*db, *block),
{
    match &block.printer {
        Some(name) => match db.find_printer(name.as_str()) {
            Some(w) => match db.types.printers.get(&w.id.0.0) {
                Some(p) => p.template().to_string(),
                None => block.key(),
            },
            None => block.key(),
        },
        None => block.key(),
    }
}

/// Whether the key stands in the table of the input markers.
fn holds_input(inputs: &Vec<(Variable, String)>, key: &str) -> (r: bool)
    ensures
        r == holds_key(input_pairs(inputs@), key@),
{
    let mut i: usize = 0;
    while i < inputs.len()
        invariant
            i <= inputs.len(),
            forall|j: int| 0 <= j < i ==> (#[trigger] input_pairs(inputs@)[j]).0 != key@,
        decreases inputs.len() - i,
    {
        let other = inputs[i].0.key();
        proof {
            assert(input_pairs(inputs@)[i as int].0 == other@);
        }
        if str_eq(other.as_str(), key) {
            return true;
        }
        i += 1;
    }
    false
}

/// Whether the key stands in the table of the printer blocks.
fn holds_printer(printers: &Vec<(PrinterBlock, String)>, key: &str) -> (r: bool)
    ensures
        r == holds_key(printer_pairs(printers@), key@),
{
    let mut i: usize = 0;
    while i < printers.len()
        invariant
            i <= printers.len(),
            forall|j: int| 0 <= j < i ==> (#[trigger] printer_pairs(printers@)[j]).0 != key@,
        decreases printers.len() - i,
    {
        let other = printers[i].0.key();
        proof {
            assert(printer_pairs(printers@)[i as int].0 == other@);
        }
        if str_eq(other.as_str(), key) {
            return true;
        }
        i += 1;
    }
    false
}

/// Puts a printer block into the table, unless its key stands there.
fn link_printer(db: &ParserDatabase, printers: &mut Vec<(PrinterBlock, String)>, b: &PrinterBlock)
    ensures
        printer_pairs(final(printers)@) == with_printer(*db, printer_pairs(old(printers)@), *b),
{
    let ghost prs = printer_pairs(printers@);
    let key = b.key();
    if !holds_printer(printers, key.as_str()) {
        printers.push((b.duplicate(), text_for(db, b)));
        proof {
            assert(printer_pairs(printers@) =~= prs.push((b.key_spec(), printer_text(*db, *b))));
        }
    }
}

/// The replacement tables for the markers of a prompt.
fn link(db: &ParserDatabase, markers: &Vec<PromptVariable>) -> (r: (
    Vec<(Variable, String)>,
    Vec<(PrinterBlock, String)>,
    Vec<ChatBlock>,
))
    ensures
        input_pairs(r.0@) == linked_inputs(markers@, markers@.len()),
        printer_pairs(r.1@) == linked_printers(*db, markers@, markers@.len()),
        chat_keys(r.2@) == linked_chats(markers@, markers@.len()),
        keys_once(input_pairs(r.0@)),
        keys_once(printer_pairs(r.1@)),
{
    let mut inputs: Vec<(Variable, String)> = Vec::new();
    let mut printers: Vec<(PrinterBlock, String)> = Vec::new();
    let mut chats: Vec<ChatBlock> = Vec::new();
    let mut i: usize = 0;
    proof {
        assert(input_pairs(inputs@) =~= linked_inputs(markers@, 0));
        assert(printer_pairs(printers@) =~= linked_printers(*db, markers@, 0));
        assert(chat_keys(chats@) =~= linked_chats(markers@, 0));
    }
    while i < markers.len()
        invariant
            i <= markers.len(),
            input_pairs(inputs@) == linked_inputs(markers@, i as nat),
            printer_pairs(printers@) == linked_printers(*db, markers@, i as nat),
            chat_keys(chats@) == linked_chats(markers@, i as nat),
        decreases markers.len() - i,
    {
        let ghost ins = input_pairs(inputs@);
        let ghost chs = chat_keys(chats@);
        match &markers[i] {
            PromptVariable::Input(v) => {
                let key = v.key();
                if !holds_input(&inputs, key.as_str()) {
                    inputs.push((v.duplicate(), key));
                    proof {
                        assert(input_pairs(inputs@) =~= ins.push((v.key_spec(), v.key_spec())));
                    }
                }
            },
            PromptVariable::Enum(b) => {
                link_printer(db, &mut printers, b);
            },
            PromptVariable::Type(b) => {
                link_printer(db, &mut printers, b);
            },
            PromptVariable::Chat(c) => {
                chats.push(c.duplicate());
                proof {
                    assert(chat_keys(chats@) =~= chs.push(c.key_spec()));
                }
            },
        }
        i += 1;
    }
    proof {
        lemma_linked_inputs_once(markers@, markers@.len());
        lemma_linked_printers_once(*db, markers@, markers@.len());
    }
    (inputs, printers, chats)
}

/// Every table but that of the variant properties is the same, and that
/// table has the same entries with the same bindings.
pub open spec fn relinked(after: ParserDatabase, before: ParserDatabase) -> bool {
    &&& after.ast == before.ast
    &&& crate::variant::same_but_properties(after.types, before.types)
    &&& after.types.variant_properties@.dom() == before.types.variant_properties@.dom()
    &&& forall|k: usize| #[trigger]
        before.types.variant_properties@.contains_key(k) ==> same_binding(
            after.types.variant_properties@[k],
            before.types.variant_properties@[k],
        )
}

/// The properties of every variant among the first `n` declarations are linked.
pub open spec fn linked_upto(db: ParserDatabase, n: nat) -> bool {
    forall|k: usize|
        k < n && k < db.ast.tops@.len() && db.ast.tops@[k as int] is Variant
            && #[trigger] db.types.variant_properties@.contains_key(k) ==> is_linked(
            db.types.variant_properties@[k],
            db,
        )
}

impl ParserDatabase {
    /// Links the markers of the prompt of every variant to what replaces
    /// them: an input marker to its own key, a printer block to the template
    /// of the printer it names, and the chat blocks in order.
    pub fn finalize(&mut self)
        ensures
            relinked(*final(self), *old(self)),
            linked_upto(*final(self), final(self).ast.tops@.len()),
    {
        let total = self.ast.tops.len();
        let mut i: usize = 0;
        while i < total
            invariant
                i <= total,
                total == self.ast.tops@.len(),
                relinked(*self, *old(self)),
                linked_upto(*self, i as nat),
            decreases total - i,
        {
            let is_variant = match &self.ast.tops[i] {
                Top::Variant(_) => true,
                _ => false,
            };
            if is_variant {
                let ghost before = *self;
                match self.types.variant_properties.remove(&i) {
                    Some(p) => {
                        let ghost without = *self;
                        proof {
                            assert(before.types.variant_properties@.contains_key(i));
                            assert(before.types.variant_properties@[i] == p);
                            assert(without.types.variant_properties@
                                == before.types.variant_properties@.remove(i));
                        }
                        let replacers = link(self, &p.prompt_replacements);
                        let linked = VariantProperties {
                            client: p.client,
                            prompt: p.prompt,
                            prompt_replacements: p.prompt_replacements,
                            replacers,
                            input_adapter: p.input_adapter,
                            output_adapter: p.output_adapter,
                        };
                        self.types.variant_properties.insert(i, linked);
                        proof {
                            lemma_link_ignores_properties(
                                without,
                                *self,
                                linked.prompt_replacements@,
                            );
                            assert(self.types.variant_properties@.dom()
                                =~= before.types.variant_properties@.dom());
                            assert forall|k: usize| #[trigger]
                                old(self).types.variant_properties@.contains_key(
                                    k,
                                ) implies same_binding(
                                self.types.variant_properties@[k],
                                old(self).types.variant_properties@[k],
                            ) by {
                                assert(same_binding(
                                    before.types.variant_properties@[k],
                                    old(self).types.variant_properties@[k],
                                ));
                            }
                            assert forall|k: usize|
                                k < i + 1 && k < self.ast.tops@.len()
                                    && self.ast.tops@[k as int] is Variant
                                    && #[trigger] self.types.variant_properties@.contains_key(
                                    k,
                                ) implies is_linked(self.types.variant_properties@[k], *self) by {
                                if k < i {
                                    assert(before.types.variant_properties@.contains_key(k));
                                    let q = before.types.variant_properties@[k];
                                    assert(is_linked(q, before));
                                    assert(self.types.variant_properties@[k] == q);
                                    lemma_link_ignores_properties(
                                        before,
                                        *self,
                                        q.prompt_replacements@,
                                    );
                                } else {
                                    assert(self.types.variant_properties@[k] == linked);
                                }
                            }
                        }
                    },
                    None => {
                        proof {
                            assert(!before.types.variant_properties@.contains_key(i));
                            assert(self.types.variant_properties@
                                =~= before.types.variant_properties@);
                            assert forall|k: usize|
                                k < i + 1 && k < self.ast.tops@.len()
                                    && self.ast.tops@[k as int] is Variant
                                    && #[trigger] self.types.variant_properties@.contains_key(
                                    k,
                                ) implies is_linked(self.types.variant_properties@[k], *self) by {
                                assert(before.types.variant_properties@.contains_key(k));
                                let q = before.types.variant_properties@[k];
                                assert(is_linked(q, before));
                                lemma_link_ignores_properties(
                                    before,
                                    *self,
                                    q.prompt_replacements@,
                                );
                            }
                        }
                    },
                }
            }
            i += 1;
        }
    }
}

/// What the markers of a prompt are linked to does not depend on the
/// properties of the variants.
pub proof fn lemma_link_ignores_properties(
    a: ParserDatabase,
    b: ParserDatabase,
    markers: Seq<PromptVariable>,
)
    requires
        a.ast == b.ast,
        a.types.printers == b.types.printers,
    ensures
        forall|n: nat| #[trigger]
            linked_printers(a, markers, n) == linked_printers(b, markers, n),
{
    assert forall|n: nat| #[trigger]
        linked_printers(a, markers, n) == linked_printers(b, markers, n) by {
        lemma_link_ignores_properties_upto(a, b, markers, n);
    }
}

proof fn lemma_link_ignores_properties_upto(
    a: ParserDatabase,
    b: ParserDatabase,
    markers: Seq<PromptVariable>,
    n: nat,
)
    requires
        a.ast == b.ast,
        a.types.printers == b.types.printers,
    ensures
        linked_printers(a, markers, n) == linked_printers(b, markers, n),
    decreases n,
{
    if n > 0 && n <= markers.len() {
        lemma_link_ignores_properties_upto(a, b, markers, (n - 1) as nat);
    }
}

} // verus!
