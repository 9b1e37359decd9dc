//! The palette of a shader's graph: what can be added, found by what is typed.

use crate::text::{
    chars_of, contains_text, copy_of, occurs, occurs_at, same_text, small_letters, to_small_letters,
};
use vstd::prelude::*;

verus! {

/// Does what is typed find something of this name, with these words on it? What
/// is compared is in small letters. Nothing typed finds everything.
pub open spec fn is_hit(search: Seq<char>, name: Seq<char>, doc: Seq<char>) -> bool {
    found(small_letters(search), small_letters(name), small_letters(doc))
}

/// Does `q` find something with this name and these words?
pub open spec fn found(q: Seq<char>, name: Seq<char>, doc: Seq<char>) -> bool {
    q.len() == 0 || occurs(name, q) || occurs(doc, q)
}

/// Does `q` find something with this name and these words? All three are in small
/// letters already.
pub fn finds(q: &str, name: &str, doc: &str) -> (out: bool)
    ensures
        out == found(q@, name@, doc@),
{
    let q: Vec<char> = chars_of(q);
    if q.len() == 0 {
        return true;
    }
    contains_text(chars_of(name).as_slice(), q.as_slice()) || contains_text(
        chars_of(doc).as_slice(),
        q.as_slice(),
    )
}

/// Does what is typed find something of this name, with these words on it?
pub fn hit(search: &str, name: &str, doc: &str) -> (out: bool)
    ensures
        out == is_hit(search@, name@, doc@),
{
    let q: String = to_small_letters(search);
    let n: String = to_small_letters(name);
    let d: String = to_small_letters(doc);
    finds(q.as_str(), n.as_str(), d.as_str())
}

/// What an entry adds.
#[derive(Clone, Copy, Debug, PartialEq, Eq, Structural)]
pub enum Adds {
    Knob,
    ColourKnob,
    Texture,
    Constant,
    /// A vector of so many parts.
    Combine(u8),
    Split,
    /// The input at this place of the list.
    Input(usize),
    Add,
    Subtract,
    Multiply,
    Divide,
    /// The operation at this place of the list.
    Op(usize),
}

/// An entry of the palette: the heading that it stands under, what it is called,
/// what is said of it, and what it adds.
pub struct PaletteEntry {
    pub heading: String,
    pub label: String,
    pub doc: String,
    pub adds: Adds,
}

/// An entry as plain data.
pub struct EntryModel {
    pub heading: Seq<char>,
    pub label: Seq<char>,
    pub doc: Seq<char>,
    pub adds: Adds,
}

impl View for PaletteEntry {
    type V = EntryModel;

    open spec fn view(&self) -> EntryModel {
        EntryModel {
            heading: self.heading@,
            label: self.label@,
            doc: self.doc@,
            adds: self.adds,
        }
    }
}

/// Entries as plain data.
pub open spec fn entries(v: Seq<PaletteEntry>) -> Seq<EntryModel> {
    v.map_values(|e: PaletteEntry| e@)
}

/// An operation of the library.
pub struct OpInfo {
    pub name: String,
    pub category: String,
    pub doc: String,
    /// Is it there for shaders of this kind?
    pub in_stage: bool,
}

/// An entry, if it is found by these words.
pub open spec fn entry_if(search: Seq<char>, words: Seq<char>, e: EntryModel) -> Seq<EntryModel> {
    if is_hit(search, e.label, words) {
        seq![e]
    } else {
        seq![]
    }
}

/// A value that can be added.
pub open spec fn value_entry(label: Seq<char>, doc: Seq<char>, adds: Adds) -> EntryModel {
    EntryModel { heading: "values"@, label, doc, adds }
}

/// A value that can be added, if it is found.
pub open spec fn value_if(
    search: Seq<char>,
    label: Seq<char>,
    doc: Seq<char>,
    adds: Adds,
) -> Seq<EntryModel> {
    entry_if(search, doc, value_entry(label, doc, adds))
}

/// The values that are found.
pub open spec fn values_found(search: Seq<char>) -> Seq<EntryModel> {
    value_if(
        search,
        "knob"@,
        "a number the Inspector exposes as a slider on every material using this shader"@,
        Adds::Knob,
    ) + value_if(
        search,
        "color knob"@,
        "a color picker the Inspector exposes"@,
        Adds::ColourKnob,
    ) + value_if(
        search,
        "texture slot"@,
        "a texture the material binds (drag an image onto it in the Inspector)"@,
        Adds::Texture,
    ) + value_if(search, "constant"@, "a fixed number/vector/color"@, Adds::Constant) + value_if(
        search,
        "combine 2"@,
        "build a vec2 from parts"@,
        Adds::Combine(2),
    ) + value_if(search, "combine 3"@, "build a vec3 from parts"@, Adds::Combine(3)) + value_if(
        search,
        "combine 4"@,
        "build a vec4 from parts"@,
        Adds::Combine(4),
    ) + value_if(
        search,
        "split"@,
        "take components out of a vector (.x, .rgb…)"@,
        Adds::Split,
    )
}

/// The inputs that are found, of the first `n`.
pub open spec fn inputs_found(search: Seq<char>, names: Seq<String>, n: int) -> Seq<EntryModel>
    decreases n,
{
    if n <= 0 {
        seq![]
    } else {
        inputs_found(search, names, n - 1) + entry_if(
            search,
            "input"@,
            EntryModel {
                heading: "inputs"@,
                label: names[n - 1]@,
                doc: "a built-in value from the engine"@,
                adds: Adds::Input((n - 1) as usize),
            },
        )
    }
}

/// An operator, if it is found.
pub open spec fn operator_if(search: Seq<char>, label: Seq<char>, adds: Adds) -> Seq<EntryModel> {
    entry_if(
        search,
        "operator math"@,
        EntryModel { heading: "operators"@, label, doc: "combine two values"@, adds },
    )
}

/// The operators that are found.
pub open spec fn operators_found(search: Seq<char>) -> Seq<EntryModel> {
    operator_if(search, "add  +"@, Adds::Add) + operator_if(
        search,
        "subtract  −"@,
        Adds::Subtract,
    ) + operator_if(search, "multiply  ×"@, Adds::Multiply) + operator_if(
        search,
        "divide  ÷"@,
        Adds::Divide,
    )
}

/// The operations of a category that are found, of the first `n`.
pub open spec fn ops_found(
    search: Seq<char>,
    ops: Seq<OpInfo>,
    category: Seq<char>,
    n: int,
) -> Seq<EntryModel>
    decreases n,
{
    if n <= 0 {
        seq![]
    } else {
        let op = ops[n - 1];
        ops_found(search, ops, category, n - 1) + if op.category@ == category && op.in_stage {
            entry_if(
                search,
                op.doc@,
                EntryModel {
                    heading: category,
                    label: op.name@,
                    doc: op.doc@,
                    adds: Adds::Op((n - 1) as usize),
                },
            )
        } else {
            seq![]
        }
    }
}

/// All that is found: values, inputs, operators, and the operations of the
/// library by their category.
pub open spec fn palette_of(
    search: Seq<char>,
    inputs: Seq<String>,
    ops: Seq<OpInfo>,
) -> Seq<EntryModel> {
    let n = ops.len() as int;
    values_found(search) + inputs_found(search, inputs, inputs.len() as int) + operators_found(
        search,
    ) + ops_found(search, ops, "math"@, n) + ops_found(search, ops, "noise"@, n) + ops_found(
        search,
        ops,
        "color"@,
        n,
    ) + ops_found(search, ops, "texture"@, n) + ops_found(search, ops, "sdf"@, n) + ops_found(
        search,
        ops,
        "engine"@,
        n,
    )
}

/// Puts an entry behind those that are there, if it is found by these words.
fn offer(
    out: &mut Vec<PaletteEntry>,
    search: &str,
    heading: &str,
    label: &str,
    words: &str,
    doc: &str,
    adds: Adds,
)
    ensures
        entries(final(out)@) == entries(old(out)@) + entry_if(
            search@,
            words@,
            EntryModel { heading: heading@, label: label@, doc: doc@, adds },
        ),
{
    let ghost was = out@;
    if hit(search, label, words) {
        out.push(
            PaletteEntry {
                heading: copy_of(heading),
                label: copy_of(label),
                doc: copy_of(doc),
                adds,
            },
        );
        assert(entries(out@) =~= entries(was) + seq![
            EntryModel { heading: heading@, label: label@, doc: doc@, adds },
        ]);
    } else {
        assert(entries(out@) =~= entries(was) + Seq::<EntryModel>::empty());
    }
}

/// Puts a value behind the entries that are there, if it is found.
fn offer_value(out: &mut Vec<PaletteEntry>, search: &str, label: &str, doc: &str, adds: Adds)
    ensures
        entries(final(out)@) == entries(old(out)@) + value_if(search@, label@, doc@, adds),
{
    offer(out, search, "values", label, doc, doc, adds);
}

/// Puts the values that are found behind the entries that are there.
fn offer_values(out: &mut Vec<PaletteEntry>, search: &str)
    ensures
        entries(final(out)@) == entries(old(out)@) + values_found(search@),
{
    let ghost was = entries(out@);
    offer_value(
        out,
        search,
        "knob",
        "a number the Inspector exposes as a slider on every material using this shader",
        Adds::Knob,
    );
    offer_value(
        out,
        search,
        "color knob",
        "a color picker the Inspector exposes",
        Adds::ColourKnob,
    );
    offer_value(
        out,
        search,
        "texture slot",
        "a texture the material binds (drag an image onto it in the Inspector)",
        Adds::Texture,
    );
    offer_value(out, search, "constant", "a fixed number/vector/color", Adds::Constant);
    offer_value(out, search, "combine 2", "build a vec2 from parts", Adds::Combine(2));
    offer_value(out, search, "combine 3", "build a vec3 from parts", Adds::Combine(3));
    offer_value(out, search, "combine 4", "build a vec4 from parts", Adds::Combine(4));
    offer_value(
        out,
        search,
        "split",
        "take components out of a vector (.x, .rgb…)",
        Adds::Split,
    );
    assert(entries(out@) =~= was + values_found(search@));
}

/// Puts an operator behind the entries that are there, if it is found.
fn offer_operator(out: &mut Vec<PaletteEntry>, search: &str, label: &str, adds: Adds)
    ensures
        entries(final(out)@) == entries(old(out)@) + operator_if(search@, label@, adds),
{
    offer(out, search, "operators", label, "operator math", "combine two values", adds);
}

/// Puts the operators that are found behind the entries that are there.
fn offer_operators(out: &mut Vec<PaletteEntry>, search: &str)
    ensures
        entries(final(out)@) == entries(old(out)@) + operators_found(search@),
{
    let ghost was = entries(out@);
    offer_operator(out, search, "add  +", Adds::Add);
    offer_operator(out, search, "subtract  −", Adds::Subtract);
    offer_operator(out, search, "multiply  ×", Adds::Multiply);
    offer_operator(out, search, "divide  ÷", Adds::Divide);
    assert(entries(out@) =~= was + operators_found(search@));
}

/// Puts the inputs that are found behind the entries that are there.
fn offer_inputs(out: &mut Vec<PaletteEntry>, search: &str, names: &Vec<String>)
    ensures
        entries(final(out)@) == entries(old(out)@) + inputs_found(
            search@,
            names@,
            names@.len() as int,
        ),
{
    let ghost was = entries(out@);
    let mut i: usize = 0;
    assert(was + inputs_found(search@, names@, 0) =~= was);
    while i < names.len()
        invariant
            i <= names.len(),
            entries(out@) == was + inputs_found(search@, names@, i as int),
        decreases names.len() - i,
    {
        offer(
            out,
            search,
            "inputs",
            names[i].as_str(),
            "input",
            "a built-in value from the engine",
            Adds::Input(i),
        );
        assert(entries(out@) =~= was + inputs_found(search@, names@, i + 1));
        i += 1;
    }
}

/// Puts the operations of a category that are found behind the entries that are
/// there.
fn offer_ops(out: &mut Vec<PaletteEntry>, search: &str, ops: &Vec<OpInfo>, category: &str)
    ensures
        entries(final(out)@) == entries(old(out)@) + ops_found(
            search@,
            ops@,
            category@,
            ops@.len() as int,
        ),
{
    let ghost was = entries(out@);
    let mut i: usize = 0;
    assert(was + ops_found(search@, ops@, category@, 0) =~= was);
    while i < ops.len()
        invariant
            i <= ops.len(),
            entries(out@) == was + ops_found(search@, ops@, category@, i as int),
        decreases ops.len() - i,
    {
        let op: &OpInfo = &ops[i];
        if same_text(op.category.as_str(), category) && op.in_stage {
            offer(
                out,
                search,
                category,
                op.name.as_str(),
                op.doc.as_str(),
                op.doc.as_str(),
                Adds::Op(i),
            );
        }
        assert(entries(out@) =~= was + ops_found(search@, ops@, category@, i + 1));
        i += 1;
    }
}

/// All that what is typed finds. `inputs` are the inputs that shaders of this
/// kind have.
pub fn palette(search: &str, inputs: &Vec<String>, ops: &Vec<OpInfo>) -> (out: Vec<PaletteEntry>)
    ensures
        entries(out@) == palette_of(search@, inputs@, ops@),
{
    let mut out: Vec<PaletteEntry> = Vec::new();
    offer_values(&mut out, search);
    offer_inputs(&mut out, search, inputs);
    offer_operators(&mut out, search);
    offer_ops(&mut out, search, ops, "math");
    offer_ops(&mut out, search, ops, "noise");
    offer_ops(&mut out, search, ops, "color");
    offer_ops(&mut out, search, ops, "texture");
    offer_ops(&mut out, search, ops, "sdf");
    offer_ops(&mut out, search, ops, "engine");
    assert(entries(out@) =~= palette_of(search@, inputs@, ops@));
    out
}

/// Something that is found by a name stays found when less of it is typed.
pub proof fn law_typing_less_finds_more(
    q: Seq<char>,
    shorter: Seq<char>,
    name: Seq<char>,
    doc: Seq<char>,
)
    requires
        occurs(q, shorter),
        found(q, name, doc),
    ensures
        found(shorter, name, doc),
{
    if q.len() > 0 && shorter.len() > 0 {
        let at = choose|at: int| #[trigger] crate::text::occurs_at(q, shorter, at);
        if occurs(name, q) {
            let i = choose|i: int| #[trigger] crate::text::occurs_at(name, q, i);
            assert(name.subrange(i + at, i + at + shorter.len()) =~= shorter) by {
                assert(name.subrange(i, i + q.len()) == q);
                assert forall|k: int| 0 <= k < shorter.len() implies name[i + at + k]
                    == #[trigger] shorter[k] by {
                    assert(q[at + k] == name.subrange(i, i + q.len())[at + k]);
                    assert(shorter[k] == q.subrange(at, at + shorter.len())[k]);
                }
            }
            assert(crate::text::occurs_at(name, shorter, i + at));
        } else {
            let i = choose|i: int| #[trigger] crate::text::occurs_at(doc, q, i);
            assert(doc.subrange(i + at, i + at + shorter.len()) =~= shorter) by {
                assert(doc.subrange(i, i + q.len()) == q);
                assert forall|k: int| 0 <= k < shorter.len() implies doc[i + at + k]
                    == #[trigger] shorter[k] by {
                    assert(q[at + k] == doc.subrange(i, i + q.len())[at + k]);
                    assert(shorter[k] == q.subrange(at, at + shorter.len())[k]);
                }
            }
            assert(crate::text::occurs_at(doc, shorter, i + at));
        }
    }
}

/// Nothing typed finds everything; anything typed finds what has it in its name or in what is
/// said of it, and nothing else.
pub proof fn law_a_name_or_its_words_are_found(q: Seq<char>, name: Seq<char>, doc: Seq<char>)
    ensures
        found(Seq::empty(), name, doc),
        q.len() > 0 ==> (found(q, name, doc) <==> (exists|i: int| occurs_at(name, q, i)) || (
        exists|i: int| occurs_at(doc, q, i))),
        found(name, name, doc),
        found(doc, name, doc),
{
    assert(name.subrange(0, name.len() as int) =~= name);
    assert(occurs_at(name, name, 0));
    assert(doc.subrange(0, doc.len() as int) =~= doc);
    assert(occurs_at(doc, doc, 0));
}

/// An entry is offered once where it is found by its label or by these words, and else not.
pub proof fn law_an_entry_is_offered_where_it_is_found(
    search: Seq<char>,
    words: Seq<char>,
    e: EntryModel,
)
    ensures
        is_hit(search, e.label, words) ==> entry_if(search, words, e) == seq![e],
        !is_hit(search, e.label, words) ==> entry_if(search, words, e).len() == 0,
{
}

/// An operation is offered exactly where it is of the category, there for this kind of shader,
/// and found; it adds itself, under its own name, behind those before it.
pub proof fn law_an_operation_is_offered_under_its_category(
    search: Seq<char>,
    ops: Seq<OpInfo>,
    category: Seq<char>,
    n: int,
)
    requires
        0 < n <= ops.len() <= usize::MAX,
    ensures
        ({
            let before = ops_found(search, ops, category, n - 1);
            let after = ops_found(search, ops, category, n);
            let op = ops[n - 1];
            let offered = op.category@ == category && op.in_stage && is_hit(
                search,
                op.name@,
                op.doc@,
            );
            &&& before.is_prefix_of(after)
            &&& after.len() == before.len() + if offered {
                1nat
            } else {
                0nat
            }
            &&& offered ==> after.last().label == op.name@ && after.last().heading == category
                && after.last().doc == op.doc@ && after.last().adds == Adds::Op((n - 1) as usize)
        }),
{
}

/// An input is offered where it is found, and adds itself.
pub proof fn law_an_input_adds_itself(search: Seq<char>, names: Seq<String>, n: int)
    requires
        0 < n <= names.len() <= usize::MAX,
    ensures
        ({
            let before = inputs_found(search, names, n - 1);
            let after = inputs_found(search, names, n);
            let offered = is_hit(search, names[n - 1]@, "input"@);
            &&& before.is_prefix_of(after)
            &&& after.len() == before.len() + if offered {
                1nat
            } else {
                0nat
            }
            &&& offered ==> after.last().label == names[n - 1]@ && after.last().heading
                == "inputs"@ && after.last().adds == Adds::Input((n - 1) as usize)
        }),
{
}

/// All values that can be added are offered where everything is found: each once, under the
/// same heading, and each adds what no other does.
pub proof fn law_every_value_is_offered(search: Seq<char>)
    requires
        small_letters(search).len() == 0,
    ensures
        ({
            let v = values_found(search);
            &&& v.len() == 8
            &&& forall|i: int| 0 <= i < v.len() ==> (#[trigger] v[i]).heading == "values"@
            &&& forall|i: int, j: int|
                0 <= i < j < v.len() ==> (#[trigger] v[i]).adds != (#[trigger] v[j]).adds
        }),
        ({
            let o = operators_found(search);
            &&& o.len() == 4
            &&& o[0].adds is Add && o[1].adds is Subtract && o[2].adds is Multiply && o[3].adds is Divide
            &&& forall|i: int| 0 <= i < o.len() ==> (#[trigger] o[i]).heading == "operators"@
        }),
{
    let v = values_found(search);
    assert(v.len() == 8);
    assert(v[0].adds is Knob && v[1].adds is ColourKnob && v[2].adds is Texture);
    assert(v[3].adds is Constant && v[4].adds == Adds::Combine(2) && v[5].adds == Adds::Combine(3));
    assert(v[6].adds == Adds::Combine(4) && v[7].adds is Split);
    let o = operators_found(search);
    assert(o.len() == 4);
}

} // verus!
