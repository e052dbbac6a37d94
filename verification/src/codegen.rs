//! The grammar-to-code lowering: how a declarative grammar becomes the
//! typed node layer.
//!
//! A grammar rule lowers to a typed enum when every alternative is a
//! bare node reference; a repeated node — in particular the comma-list
//! shape `(T (',' T)* ','?)` — lowers to a "many" field; anything else
//! lowers to an optional single child.  Duplicate fields are dropped,
//! node references that exactly cover an enum's variants collapse into
//! one field of the enum type, and common field sets are extracted into
//! traits.  The code *text* is rendered elsewhere; this module fixes
//! what the typed layer expresses, and each pass carries a contract
//! saying exactly which fields it keeps and which it rewrites.

use vstd::prelude::*;
use vstd::slice::slice_to_vec;
use vstd::string::StringSliceAdditionalSpecFns;

verus! {

broadcast use vstd::std_specs::vec::axiom_vec_index_decreases, vstd::std_specs::vec::axiom_vec_decreases_to_view;

/// A grammar rule, as read from the grammar description.  Nodes and
/// tokens are referred to by name; a token's name is already the
/// identifier its accessor will be built from.
#[derive(Debug)]
pub enum Rule {
    Labeled { label: Vec<u8>, rule: Box<Rule> },
    Node(Vec<u8>),
    Token(Vec<u8>),
    Sequence(Vec<Rule>),
    Alt(Vec<Rule>),
    Opt(Box<Rule>),
    Rep(Box<Rule>),
}

/// One named production of the grammar.
#[derive(Debug)]
pub struct GrammarRuleDef {
    pub name: Vec<u8>,
    pub rule: Rule,
}

/// Whether a child occurs at most once or many times.
#[derive(Clone, Copy, PartialEq, Eq, Structural, Debug)]
pub enum Cardinality {
    Optional,
    Many,
}

/// A lowered field of a node: a token accessor or a child-node accessor.
#[derive(Debug)]
pub enum GrammarNodeField {
    Token(Vec<u8>),
    Node { name: Vec<u8>, ty: Vec<u8>, cardinality: Cardinality },
}

/// A lowered struct-like node.
#[derive(Debug)]
pub struct GrammarNode {
    pub doc: Vec<Vec<u8>>,
    pub name: Vec<u8>,
    pub traits: Vec<Vec<u8>>,
    pub fields: Vec<GrammarNodeField>,
}

/// A lowered enum over bare node alternatives.
#[derive(Debug)]
pub struct GrammarEnum {
    pub doc: Vec<Vec<u8>>,
    pub name: Vec<u8>,
    pub traits: Vec<Vec<u8>>,
    pub variants: Vec<Vec<u8>>,
}

/// The whole lowered layer.
#[derive(Debug)]
pub struct GrammarAST {
    pub tokens: Vec<Vec<u8>>,
    pub nodes: Vec<GrammarNode>,
    pub enums: Vec<GrammarEnum>,
}

// ---------------------------------------------------------------------
// Mathematical models.  Contracts speak of fields, nodes and enums by
// their byte contents, not by the vectors that carry them.
// ---------------------------------------------------------------------

/// The mathematical view of one lowered field.
pub ghost enum FieldModel {
    Token { name: Seq<u8> },
    Child { name: Seq<u8>, ty: Seq<u8>, many: bool },
}

pub open spec fn field_model(f: GrammarNodeField) -> FieldModel {
    match f {
        GrammarNodeField::Token(t) => FieldModel::Token { name: t@ },
        GrammarNodeField::Node { name, ty, cardinality } => FieldModel::Child {
            name: name@,
            ty: ty@,
            many: cardinality is Many,
        },
    }
}

pub open spec fn fields_model(fs: Seq<GrammarNodeField>) -> Seq<FieldModel> {
    fs.map_values(|f: GrammarNodeField| field_model(f))
}

/// The views of a list of names.
pub open spec fn names_model(ns: Seq<Vec<u8>>) -> Seq<Seq<u8>> {
    ns.map_values(|n: Vec<u8>| n@)
}

/// The mathematical view of a lowered node.
pub ghost struct NodeModel {
    pub name: Seq<u8>,
    pub traits: Seq<Seq<u8>>,
    pub fields: Seq<FieldModel>,
}

pub open spec fn node_model(n: GrammarNode) -> NodeModel {
    NodeModel { name: n.name@, traits: names_model(n.traits@), fields: fields_model(n.fields@) }
}

pub open spec fn nodes_model(ns: Seq<GrammarNode>) -> Seq<NodeModel> {
    ns.map_values(|n: GrammarNode| node_model(n))
}

/// The mathematical view of a lowered enum (its traits are tracked
/// separately, since they are filled in by a later pass).
pub ghost struct EnumModel {
    pub name: Seq<u8>,
    pub variants: Seq<Seq<u8>>,
}

pub open spec fn enum_model(e: GrammarEnum) -> EnumModel {
    EnumModel { name: e.name@, variants: names_model(e.variants@) }
}

pub open spec fn enums_model(es: Seq<GrammarEnum>) -> Seq<EnumModel> {
    es.map_values(|e: GrammarEnum| enum_model(e))
}

/// Whether `n` occurs among `ns`.
pub open spec fn in_names(n: Seq<u8>, ns: Seq<Seq<u8>>) -> bool {
    exists|k: int| 0 <= k < ns.len() && ns[k] == n
}

/// Two fields express the same accessor.
pub open spec fn field_eq(a: GrammarNodeField, b: GrammarNodeField) -> bool {
    field_model(a) == field_model(b)
}

/// The target type of a field's accessor: `SyntaxToken` for tokens, the
/// referenced node type for children.
pub open spec fn field_ty_model(f: FieldModel) -> Seq<u8> {
    match f {
        FieldModel::Token { .. } => "SyntaxToken".spec_bytes(),
        FieldModel::Child { ty, .. } => ty,
    }
}

/// The accessor name of a field: `<token>_token` for tokens, the field
/// name for children, with the reserved word `type` spelled `ty`.
pub open spec fn field_method_model(f: FieldModel) -> Seq<u8> {
    match f {
        FieldModel::Token { name } => name + "_token".spec_bytes(),
        FieldModel::Child { name, .. } => if name == "type".spec_bytes() {
            "ty".spec_bytes()
        } else {
            name
        },
    }
}

fn bytes_eq(a: &Vec<u8>, b: &Vec<u8>) -> (r: bool)
    ensures
        r == (a@ =~= b@),
{
    if a.len() != b.len() {
        return false;
    }
    let mut i: usize = 0;
    while i < a.len()
        invariant
            i <= a@.len(),
            a@.len() == b@.len(),
            forall|j: int| 0 <= j < i ==> a@[j] == b@[j],
        decreases a@.len() - i,
    {
        if a[i] != b[i] {
            return false;
        }
        i = i + 1;
    }
    true
}

fn bytes_eq_str(a: &Vec<u8>, s: &str) -> (r: bool)
    ensures
        r == (a@ =~= s.spec_bytes()),
{
    let b = s.as_bytes();
    if a.len() != b.len() {
        return false;
    }
    let mut i: usize = 0;
    while i < a.len()
        invariant
            i <= a@.len(),
            a@.len() == b@.len(),
            b@ == s.spec_bytes(),
            forall|j: int| 0 <= j < i ==> a@[j] == b@[j],
        decreases a@.len() - i,
    {
        if a[i] != b[i] {
            return false;
        }
        i = i + 1;
    }
    true
}

fn copy_bytes(a: &Vec<u8>) -> (r: Vec<u8>)
    ensures
        r@ == a@,
{
    slice_to_vec(a.as_slice())
}

fn str_to_bytes(s: &str) -> (r: Vec<u8>)
    ensures
        r@ == s.spec_bytes(),
{
    slice_to_vec(s.as_bytes())
}

/// Whether the name `s` occurs among `names`.
fn name_in(names: &Vec<Vec<u8>>, s: &Vec<u8>) -> (r: bool)
    ensures
        r == in_names(s@, names_model(names@)),
{
    let mut found = false;
    let mut k: usize = 0;
    while k < names.len()
        invariant
            k <= names@.len(),
            found <==> exists|a: int| 0 <= a < k && #[trigger] names_model(names@)[a] == s@,
        decreases names@.len() - k,
    {
        if bytes_eq(&names[k], s) {
            found = true;
            proof {
                assert(names_model(names@)[k as int] == s@);
            }
        }
        k = k + 1;
    }
    found
}

fn field_eq_exec(a: &GrammarNodeField, b: &GrammarNodeField) -> (r: bool)
    ensures
        r == field_eq(*a, *b),
{
    match (a, b) {
        (GrammarNodeField::Token(t1), GrammarNodeField::Token(t2)) => bytes_eq(t1, t2),
        (
            GrammarNodeField::Node { name: n1, ty: ty1, cardinality: c1 },
            GrammarNodeField::Node { name: n2, ty: ty2, cardinality: c2 },
        ) => bytes_eq(n1, n2) && bytes_eq(ty1, ty2) && *c1 == *c2,
        _ => false,
    }
}

impl GrammarNodeField {
    /// Whether the field collects many children.
    pub fn is_many(&self) -> (r: bool)
        ensures
            r == (*self matches GrammarNodeField::Node { cardinality: Cardinality::Many, .. }),
    {
        match self {
            GrammarNodeField::Node { cardinality: Cardinality::Many, .. } => true,
            _ => false,
        }
    }

    /// The name of the accessor this field lowers to: `<token>_token`
    /// for tokens, the field name for nodes (with the reserved word
    /// `type` spelled `ty`).
    pub fn method_name(&self) -> (r: Vec<u8>)
        ensures
            r@ == field_method_model(field_model(*self)),
    {
        match self {
            GrammarNodeField::Token(t) => {
                let mut out = copy_bytes(t);
                let suffix = str_to_bytes("_token");
                let mut i: usize = 0;
                while i < suffix.len()
                    invariant
                        i <= suffix@.len(),
                        out@ == t@ + suffix@.subrange(0, i as int),
                    decreases suffix@.len() - i,
                {
                    out.push(suffix[i]);
                    proof {
                        assert(out@ =~= t@ + suffix@.subrange(0, i + 1));
                    }
                    i = i + 1;
                }
                proof {
                    assert(suffix@.subrange(0, suffix@.len() as int) =~= suffix@);
                }
                out
            },
            GrammarNodeField::Node { name, .. } => {
                if bytes_eq_str(name, "type") {
                    str_to_bytes("ty")
                } else {
                    copy_bytes(name)
                }
            },
        }
    }

    /// The target type of the accessor.
    pub fn ty(&self) -> (r: Vec<u8>)
        ensures
            r@ == field_ty_model(field_model(*self)),
    {
        match self {
            GrammarNodeField::Token(_) => str_to_bytes("SyntaxToken"),
            GrammarNodeField::Node { ty, .. } => copy_bytes(ty),
        }
    }
}

/// A deep copy of one field of a node (fields are plain data).
fn fetch_field(node: &GrammarNode, i: usize) -> (r: GrammarNodeField)
    requires
        i < node.fields@.len(),
    ensures
        field_model(r) == field_model(node.fields@[i as int]),
{
    match &node.fields[i] {
        GrammarNodeField::Token(t) => GrammarNodeField::Token(copy_bytes(t)),
        GrammarNodeField::Node { name, ty, cardinality } => GrammarNodeField::Node {
            name: copy_bytes(name),
            ty: copy_bytes(ty),
            cardinality: *cardinality,
        },
    }
}

/// Lowercase letters stay, uppercase letters are lowercased with an
/// underscore inserted before them (except at the start): `ParamList`
/// becomes `param_list`.
pub open spec fn lower_snake_spec(s: Seq<u8>, i: int) -> Seq<u8>
    decreases s.len() - i,
{
    if i < 0 || i >= s.len() {
        Seq::empty()
    } else {
        let c = s[i];
        let head: Seq<u8> = if 'A' as u8 <= c && c <= 'Z' as u8 {
            let low = (c + 32) as u8;
            if i > 0 {
                seq!['_' as u8, low]
            } else {
                seq![low]
            }
        } else {
            seq![c]
        };
        head + lower_snake_spec(s, i + 1)
    }
}

/// The snake_case form of a PascalCase name.
pub fn to_lower_snake_case(s: &Vec<u8>) -> (r: Vec<u8>)
    ensures
        r@ == lower_snake_spec(s@, 0),
{
    let mut out: Vec<u8> = Vec::new();
    let mut i: usize = 0;
    while i < s.len()
        invariant
            i <= s@.len(),
            lower_snake_spec(s@, 0) == out@ + lower_snake_spec(s@, i as int),
        decreases s@.len() - i,
    {
        let ghost out0 = out@;
        let c = s[i];
        if 'A' as u8 <= c && c <= 'Z' as u8 {
            if i > 0 {
                out.push('_' as u8);
            }
            out.push(c + 32);
        } else {
            out.push(c);
        }
        proof {
            let head: Seq<u8> = if 'A' as u8 <= c && c <= 'Z' as u8 {
                if i > 0 {
                    seq!['_' as u8, (c + 32) as u8]
                } else {
                    seq![(c + 32) as u8]
                }
            } else {
                seq![c]
            };
            assert(out@ =~= out0 + head);
            assert(lower_snake_spec(s@, i as int) == head + lower_snake_spec(s@, i + 1));
            assert(out0 + (head + lower_snake_spec(s@, i + 1)) =~= (out0 + head)
                + lower_snake_spec(s@, i + 1));
        }
        i = i + 1;
    }
    proof {
        assert(lower_snake_spec(s@, s@.len() as int) =~= Seq::<u8>::empty());
        assert(out@ + Seq::<u8>::empty() =~= out@);
    }
    out
}

/// The plural of a lowered field name: the name with `s` appended.
pub fn pluralize(s: &Vec<u8>) -> (r: Vec<u8>)
    ensures
        r@ == s@.push('s' as u8),
{
    let mut out = copy_bytes(s);
    out.push('s' as u8);
    out
}

// ---------------------------------------------------------------------
// Enum lowering.
// ---------------------------------------------------------------------

/// The variant names of an alternation whose alternatives are all bare
/// node references (stray `;` tokens tolerated), in order; `None` as
/// soon as any alternative is anything else.
pub open spec fn enum_variants_spec(alts: Seq<Rule>) -> Option<Seq<Seq<u8>>>
    decreases alts.len(),
{
    if alts.len() == 0 {
        Some(Seq::empty())
    } else {
        match enum_variants_spec(alts.drop_last()) {
            None => None,
            Some(vs) => match alts.last() {
                Rule::Node(n) => Some(vs.push(n@)),
                Rule::Token(t) => if t@ == ";".spec_bytes() {
                    Some(vs)
                } else {
                    None
                },
                _ => None,
            },
        }
    }
}

/// What `lower_enum` yields: the variant list for a pure alternation of
/// node references, `None` for every other rule shape.
pub open spec fn lower_enum_spec(rule: Rule) -> Option<Seq<Seq<u8>>> {
    match rule {
        Rule::Alt(alts) => enum_variants_spec(alts@),
        _ => None,
    }
}

/// A prefix that already failed stays failed, whatever follows.
proof fn lemma_enum_variants_none(alts: Seq<Rule>, i: int)
    requires
        0 <= i <= alts.len(),
        enum_variants_spec(alts.take(i)) is None,
    ensures
        enum_variants_spec(alts) is None,
    decreases alts.len() - i,
{
    if i < alts.len() {
        assert(alts.take(i + 1).drop_last() =~= alts.take(i));
        lemma_enum_variants_none(alts, i + 1);
    } else {
        assert(alts.take(i) =~= alts);
    }
}

/// An alternation over bare node references lowers to an enum (stray
/// semicolon tokens are tolerated); anything else does not.
pub fn lower_enum(rule: &Rule) -> (r: Option<Vec<Vec<u8>>>)
    ensures
        match r {
            Some(v) => lower_enum_spec(*rule) == Some(names_model(v@)),
            None => lower_enum_spec(*rule) is None,
        },
{
    let alternatives = match rule {
        Rule::Alt(it) => it,
        _ => {
            return None;
        },
    };
    let mut variants: Vec<Vec<u8>> = Vec::new();
    proof {
        assert(alternatives@.take(0) =~= Seq::<Rule>::empty());
        assert(names_model(variants@) =~= Seq::<Seq<u8>>::empty());
    }
    let mut i: usize = 0;
    while i < alternatives.len()
        invariant
            i <= alternatives@.len(),
            lower_enum_spec(*rule) == enum_variants_spec(alternatives@),
            enum_variants_spec(alternatives@.take(i as int)) == Some(names_model(variants@)),
        decreases alternatives@.len() - i,
    {
        let ghost pre = names_model(variants@);
        proof {
            assert(alternatives@.take(i + 1).drop_last() =~= alternatives@.take(i as int));
            assert(alternatives@.take(i + 1).last() == alternatives@[i as int]);
        }
        match &alternatives[i] {
            Rule::Node(it) => {
                variants.push(copy_bytes(it));
                proof {
                    assert(names_model(variants@) =~= pre.push(it@));
                }
            },
            Rule::Token(t) => {
                if !bytes_eq_str(t, ";") {
                    proof {
                        assert(enum_variants_spec(alternatives@.take(i + 1)) is None);
                        lemma_enum_variants_none(alternatives@, i + 1);
                    }
                    return None;
                }
            },
            _ => {
                proof {
                    assert(enum_variants_spec(alternatives@.take(i + 1)) is None);
                    lemma_enum_variants_none(alternatives@, i + 1);
                }
                return None;
            },
        }
        i = i + 1;
    }
    proof {
        assert(alternatives@.take(alternatives@.len() as int) =~= alternatives@);
    }
    Some(variants)
}

// ---------------------------------------------------------------------
// Rule lowering.
// ---------------------------------------------------------------------

pub open spec fn label_model(label: Option<&Vec<u8>>) -> Option<Seq<u8>> {
    match label {
        Some(l) => Some(l@),
        None => None,
    }
}

pub open spec fn label_or(label: Option<Seq<u8>>, dflt: Seq<u8>) -> Seq<u8> {
    match label {
        Some(l) => l,
        None => dflt,
    }
}

/// The element type of the comma-list shape `(T (',' T)* ','?)`, if the
/// rule has exactly that shape.
pub open spec fn comma_list_elem(rule: Rule) -> Option<Seq<u8>> {
    match rule {
        Rule::Sequence(parts) => if parts@.len() == 3 {
            match (parts@[0], parts@[1], parts@[2]) {
                (Rule::Node(n), Rule::Rep(rep), Rule::Opt(tr)) => match (*rep, *tr) {
                    (Rule::Sequence(rp), Rule::Token(tt)) => if rp@.len() == 2 {
                        match (rp@[0], rp@[1]) {
                            (Rule::Token(ct), Rule::Node(rn)) => if ct@ == tt@ && rn@ == n@ {
                                Some(n@)
                            } else {
                                None
                            },
                            _ => None,
                        }
                    } else {
                        None
                    },
                    _ => None,
                },
                _ => None,
            }
        } else {
            None
        },
        _ => None,
    }
}

/// Token names that lower to no accessor: the literal kinds, whose text
/// is read through the node itself.
pub open spec fn literal_token_name(t: Seq<u8>) -> bool {
    t == "integer_number".spec_bytes() || t == "hex_string".spec_bytes() || t
        == "byte_string".spec_bytes()
}

/// The fields one rule lowers to: a comma list or a repeated node is one
/// "many" child, a node reference one optional child, a non-literal
/// token one token accessor; sequences, alternations, options and labels
/// contribute the fields of their parts, in order.
pub open spec fn lower_rule_spec(label: Option<Seq<u8>>, rule: Rule) -> Seq<FieldModel>
    decreases rule, 0int,
{
    match comma_list_elem(rule) {
        Some(n) => seq![
            FieldModel::Child {
                name: label_or(label, lower_snake_spec(n, 0).push('s' as u8)),
                ty: n,
                many: true,
            },
        ],
        None => match rule {
            Rule::Node(ty) => seq![
                FieldModel::Child {
                    name: label_or(label, lower_snake_spec(ty@, 0)),
                    ty: ty@,
                    many: false,
                },
            ],
            Rule::Token(t) => if literal_token_name(t@) {
                Seq::empty()
            } else {
                seq![FieldModel::Token { name: t@ }]
            },
            Rule::Rep(inner) => match *inner {
                Rule::Node(ty) => seq![
                    FieldModel::Child {
                        name: label_or(label, lower_snake_spec(ty@, 0).push('s' as u8)),
                        ty: ty@,
                        many: true,
                    },
                ],
                _ => lower_rule_spec(label, *inner),
            },
            Rule::Labeled { label: l, rule: inner } => lower_rule_spec(Some(l@), *inner),
            Rule::Sequence(rules) => lower_rules_spec(label, rules@, 0),
            Rule::Alt(rules) => lower_rules_spec(label, rules@, 0),
            Rule::Opt(inner) => lower_rule_spec(label, *inner),
        },
    }
}

/// The concatenated fields of `rules[i ..]`.
pub open spec fn lower_rules_spec(label: Option<Seq<u8>>, rules: Seq<Rule>, i: int) -> Seq<
    FieldModel,
>
    decreases rules, rules.len() - i + 1,
{
    if i < 0 || i >= rules.len() {
        Seq::empty()
    } else {
        lower_rule_spec(label, rules[i]) + lower_rules_spec(label, rules, i + 1)
    }
}

/// The comma-list shape `(T (',' T)* ','?)` lowers to one "many" field.
fn lower_comma_list(
    acc: &mut Vec<GrammarNodeField>,
    label: Option<&Vec<u8>>,
    rule: &Rule,
) -> (r: bool)
    ensures
        r == (comma_list_elem(*rule) is Some),
        match comma_list_elem(*rule) {
            Some(n) => fields_model(final(acc)@) == fields_model(old(acc)@).push(
                FieldModel::Child {
                    name: label_or(label_model(label), lower_snake_spec(n, 0).push('s' as u8)),
                    ty: n,
                    many: true,
                },
            ),
            None => *final(acc) == *old(acc),
        },
{
    let parts = match rule {
        Rule::Sequence(it) => it,
        _ => {
            return false;
        },
    };
    if parts.len() != 3 {
        return false;
    }
    let node_name = match &parts[0] {
        Rule::Node(n) => n,
        _ => {
            return false;
        },
    };
    let repeat = match &parts[1] {
        Rule::Rep(inner) => inner,
        _ => {
            return false;
        },
    };
    let trailing = match &parts[2] {
        Rule::Opt(t) => t,
        _ => {
            return false;
        },
    };
    let trailing_tok = match &**trailing {
        Rule::Token(t) => t,
        _ => {
            return false;
        },
    };
    let rep_parts = match &**repeat {
        Rule::Sequence(it) => it,
        _ => {
            return false;
        },
    };
    if rep_parts.len() != 2 {
        return false;
    }
    let comma_tok = match &rep_parts[0] {
        Rule::Token(t) => t,
        _ => {
            return false;
        },
    };
    let rep_node = match &rep_parts[1] {
        Rule::Node(n) => n,
        _ => {
            return false;
        },
    };
    if !bytes_eq(comma_tok, trailing_tok) || !bytes_eq(rep_node, node_name) {
        return false;
    }
    let name = match label {
        Some(l) => copy_bytes(l),
        None => pluralize(&to_lower_snake_case(node_name)),
    };
    let ghost pre = fields_model(acc@);
    acc.push(
        GrammarNodeField::Node { name, ty: copy_bytes(node_name), cardinality: Cardinality::Many },
    );
    proof {
        assert(comma_list_elem(*rule) == Some(node_name@));
        assert(fields_model(acc@) =~= pre.push(
            FieldModel::Child {
                name: label_or(label_model(label), lower_snake_spec(node_name@, 0).push('s' as u8)),
                ty: node_name@,
                many: true,
            },
        ));
    }
    true
}

/// Lowers one rule into accessor fields, appending exactly
/// `lower_rule_spec`'s fields for it.
#[verifier::loop_isolation(false)]
pub fn lower_rule(acc: &mut Vec<GrammarNodeField>, label: Option<&Vec<u8>>, rule: &Rule)
    ensures
        fields_model(final(acc)@) == fields_model(old(acc)@) + lower_rule_spec(
            label_model(label),
            *rule,
        ),
    decreases rule,
{
    let ghost f0 = fields_model(old(acc)@);
    if lower_comma_list(acc, label, rule) {
        proof {
            let n = comma_list_elem(*rule)->Some_0;
            assert(f0.push(
                FieldModel::Child {
                    name: label_or(label_model(label), lower_snake_spec(n, 0).push('s' as u8)),
                    ty: n,
                    many: true,
                },
            ) =~= f0 + lower_rule_spec(label_model(label), *rule));
        }
        return;
    }
    match rule {
        Rule::Node(ty) => {
            let name = match label {
                Some(l) => copy_bytes(l),
                None => to_lower_snake_case(ty),
            };
            acc.push(
                GrammarNodeField::Node {
                    name,
                    ty: copy_bytes(ty),
                    cardinality: Cardinality::Optional,
                },
            );
            proof {
                assert(fields_model(acc@) =~= f0 + lower_rule_spec(label_model(label), *rule));
            }
        },
        Rule::Token(token) => {
            if !bytes_eq_str(token, "integer_number") && !bytes_eq_str(token, "hex_string")
                && !bytes_eq_str(token, "byte_string") {
                acc.push(GrammarNodeField::Token(copy_bytes(token)));
                proof {
                    assert(fields_model(acc@) =~= f0 + lower_rule_spec(label_model(label), *rule));
                }
            } else {
                proof {
                    assert(fields_model(acc@) =~= f0 + lower_rule_spec(label_model(label), *rule));
                }
            }
        },
        Rule::Rep(inner) => {
            match &**inner {
                Rule::Node(ty) => {
                    let name = match label {
                        Some(l) => copy_bytes(l),
                        None => pluralize(&to_lower_snake_case(ty)),
                    };
                    acc.push(
                        GrammarNodeField::Node {
                            name,
                            ty: copy_bytes(ty),
                            cardinality: Cardinality::Many,
                        },
                    );
                    proof {
                        assert(fields_model(acc@) =~= f0 + lower_rule_spec(
                            label_model(label),
                            *rule,
                        ));
                    }
                },
                _ => {
                    // a repetition of anything more complex contributes
                    // its parts, rather than failing the whole lowering
                    lower_rule(acc, label, inner);
                },
            }
        },
        Rule::Labeled { label: l, rule: inner } => {
            lower_rule(acc, Some(l), inner);
        },
        Rule::Sequence(rules) => {
            let mut i: usize = 0;
            while i < rules.len()
                invariant
                    i <= rules@.len(),
                    fields_model(acc@) + lower_rules_spec(label_model(label), rules@, i as int)
                        == f0 + lower_rules_spec(label_model(label), rules@, 0),
                decreases rules@.len() - i,
            {
                proof {
                    broadcast use vstd::std_specs::vec::axiom_vec_index_decreases;

                }
                let ghost fpre = fields_model(acc@);
                lower_rule(acc, label, &rules[i]);
                proof {
                    assert((fpre + lower_rule_spec(label_model(label), rules@[i as int]))
                        + lower_rules_spec(label_model(label), rules@, i + 1) =~= fpre + (
                    lower_rule_spec(label_model(label), rules@[i as int]) + lower_rules_spec(
                        label_model(label),
                        rules@,
                        i + 1,
                    )));
                }
                i = i + 1;
            }
            proof {
                assert(lower_rules_spec(label_model(label), rules@, rules@.len() as int)
                    =~= Seq::<FieldModel>::empty());
                assert(fields_model(acc@) + Seq::<FieldModel>::empty() =~= fields_model(acc@));
                assert(f0 + lower_rules_spec(label_model(label), rules@, 0) =~= fields_model(
                    acc@,
                ));
            }
        },
        Rule::Alt(rules) => {
            let mut i: usize = 0;
            while i < rules.len()
                invariant
                    i <= rules@.len(),
                    fields_model(acc@) + lower_rules_spec(label_model(label), rules@, i as int)
                        == f0 + lower_rules_spec(label_model(label), rules@, 0),
                decreases rules@.len() - i,
            {
                proof {
                    broadcast use vstd::std_specs::vec::axiom_vec_index_decreases;

                }
                let ghost fpre = fields_model(acc@);
                lower_rule(acc, label, &rules[i]);
                proof {
                    assert((fpre + lower_rule_spec(label_model(label), rules@[i as int]))
                        + lower_rules_spec(label_model(label), rules@, i + 1) =~= fpre + (
                    lower_rule_spec(label_model(label), rules@[i as int]) + lower_rules_spec(
                        label_model(label),
                        rules@,
                        i + 1,
                    )));
                }
                i = i + 1;
            }
            proof {
                assert(lower_rules_spec(label_model(label), rules@, rules@.len() as int)
                    =~= Seq::<FieldModel>::empty());
                assert(fields_model(acc@) + Seq::<FieldModel>::empty() =~= fields_model(acc@));
                assert(f0 + lower_rules_spec(label_model(label), rules@, 0) =~= fields_model(
                    acc@,
                ));
            }
        },
        Rule::Opt(inner) => {
            lower_rule(acc, label, inner);
        },
    }
}

// ---------------------------------------------------------------------
// Deduplication.
// ---------------------------------------------------------------------

/// Keeps the first occurrence of every field, in order.
pub open spec fn dedup_fields(fs: Seq<FieldModel>) -> Seq<FieldModel>
    decreases fs.len(),
{
    if fs.len() == 0 {
        Seq::empty()
    } else {
        let rest = dedup_fields(fs.drop_last());
        if rest.contains(fs.last()) {
            rest
        } else {
            rest.push(fs.last())
        }
    }
}

/// Drops every later duplicate of an earlier field, in every node: each
/// node keeps the first occurrence of every accessor, in order; names,
/// docs and traits are untouched, and so are the enums and tokens.
pub fn deduplicate_fields(ast: &mut GrammarAST)
    ensures
        final(ast).nodes@.len() == old(ast).nodes@.len(),
        forall|n: int|
            0 <= n < old(ast).nodes@.len() ==> {
                &&& (#[trigger] final(ast).nodes@[n]).name == old(ast).nodes@[n].name
                &&& final(ast).nodes@[n].doc == old(ast).nodes@[n].doc
                &&& final(ast).nodes@[n].traits == old(ast).nodes@[n].traits
                &&& fields_model(final(ast).nodes@[n].fields@) == dedup_fields(
                    fields_model(old(ast).nodes@[n].fields@),
                )
            },
        final(ast).enums == old(ast).enums,
        final(ast).tokens == old(ast).tokens,
{
    let n_nodes = ast.nodes.len();
    let mut n: usize = 0;
    while n < n_nodes
        invariant
            n <= n_nodes,
            n_nodes == ast.nodes@.len(),
            ast.enums == old(ast).enums,
            ast.tokens == old(ast).tokens,
            forall|k: int| n <= k < n_nodes ==> ast.nodes@[k] == old(ast).nodes@[k],
            forall|k: int|
                0 <= k < n ==> {
                    &&& (#[trigger] ast.nodes@[k]).name == old(ast).nodes@[k].name
                    &&& ast.nodes@[k].doc == old(ast).nodes@[k].doc
                    &&& ast.nodes@[k].traits == old(ast).nodes@[k].traits
                    &&& fields_model(ast.nodes@[k].fields@) == dedup_fields(
                        fields_model(old(ast).nodes@[k].fields@),
                    )
                },
        decreases n_nodes - n,
    {
        let ghost pre_nodes = ast.nodes@;
        let mut node = ast.nodes.remove(n);
        let ghost fm = fields_model(node.fields@);
        let mut kept: Vec<GrammarNodeField> = Vec::new();
        let nf = node.fields.len();
        proof {
            assert(fm.take(0) =~= Seq::<FieldModel>::empty());
            assert(fields_model(kept@) =~= Seq::<FieldModel>::empty());
        }
        let mut i: usize = 0;
        while i < nf
            invariant
                i <= nf,
                nf == node.fields@.len(),
                fm == fields_model(node.fields@),
                fields_model(kept@) == dedup_fields(fm.take(i as int)),
            decreases nf - i,
        {
            let mut dup = false;
            let mut j: usize = 0;
            while j < kept.len()
                invariant
                    j <= kept@.len(),
                    i < nf,
                    nf == node.fields@.len(),
                    fm == fields_model(node.fields@),
                    dup <==> exists|a: int|
                        0 <= a < j && #[trigger] fields_model(kept@)[a] == fm[i as int],
                decreases kept@.len() - j,
            {
                if field_eq_exec(&kept[j], &node.fields[i]) {
                    proof {
                        assert(fields_model(kept@)[j as int] == fm[i as int]);
                    }
                    dup = true;
                }
                j = j + 1;
            }
            proof {
                assert(dup <==> fields_model(kept@).contains(fm[i as int]));
                assert(fm.take(i + 1).drop_last() =~= fm.take(i as int));
                assert(fm.take(i + 1).last() == fm[i as int]);
            }
            if !dup {
                let ghost kept0 = fields_model(kept@);
                let f = fetch_field(&node, i);
                kept.push(f);
                proof {
                    assert(fields_model(kept@) =~= kept0.push(fm[i as int]));
                }
            }
            i = i + 1;
        }
        proof {
            assert(fm.take(nf as int) =~= fm);
        }
        node.fields = kept;
        ast.nodes.insert(n, node);
        proof {
            assert forall|k: int| 0 <= k < n_nodes && k != n implies ast.nodes@[k] == pre_nodes[k]
                by {}
        }
        n = n + 1;
    }
}

// ---------------------------------------------------------------------
// Enum collapsing.
// ---------------------------------------------------------------------

/// Whether the field's accessor type is one of the variants.
pub open spec fn is_variant_field(f: FieldModel, variants: Seq<Seq<u8>>) -> bool {
    in_names(field_ty_model(f), variants)
}

/// How many fields are typed by one of the variants.
pub open spec fn variant_field_count(fs: Seq<FieldModel>, variants: Seq<Seq<u8>>) -> int
    decreases fs.len(),
{
    if fs.len() == 0 {
        0
    } else {
        variant_field_count(fs.drop_last(), variants) + (if is_variant_field(
            fs.last(),
            variants,
        ) {
            1int
        } else {
            0int
        })
    }
}

/// The fields that are not typed by any of the variants, in order.
pub open spec fn drop_variant_fields(fs: Seq<FieldModel>, variants: Seq<Seq<u8>>) -> Seq<
    FieldModel,
>
    decreases fs.len(),
{
    if fs.len() == 0 {
        Seq::empty()
    } else {
        let rest = drop_variant_fields(fs.drop_last(), variants);
        if is_variant_field(fs.last(), variants) {
            rest
        } else {
            rest.push(fs.last())
        }
    }
}

/// One enum's collapse step over a node's fields: when the variant-typed
/// fields number exactly the variants (and there is at least one), they
/// are replaced by a single optional field of the enum type, appended
/// last; otherwise nothing changes.
pub open spec fn collapse_enum(fs: Seq<FieldModel>, e: EnumModel) -> Seq<FieldModel> {
    if variant_field_count(fs, e.variants) == e.variants.len() && e.variants.len() > 0 {
        drop_variant_fields(fs, e.variants).push(
            FieldModel::Child { name: lower_snake_spec(e.name, 0), ty: e.name, many: false },
        )
    } else {
        fs
    }
}

/// The collapse steps of the first `i` enums, applied in order.
pub open spec fn collapse_upto(fs: Seq<FieldModel>, es: Seq<EnumModel>, i: int) -> Seq<FieldModel>
    decreases i,
{
    if i <= 0 || i > es.len() {
        fs
    } else {
        collapse_enum(collapse_upto(fs, es, i - 1), es[i - 1])
    }
}

/// Fields whose types exactly cover an enum's variants collapse into a
/// single optional field of the enum type: every node's fields become
/// the enums' collapse steps applied in order; everything else is
/// untouched.
pub fn extract_enums(ast: &mut GrammarAST)
    ensures
        final(ast).nodes@.len() == old(ast).nodes@.len(),
        forall|n: int|
            0 <= n < old(ast).nodes@.len() ==> {
                &&& (#[trigger] final(ast).nodes@[n]).name == old(ast).nodes@[n].name
                &&& final(ast).nodes@[n].doc == old(ast).nodes@[n].doc
                &&& final(ast).nodes@[n].traits == old(ast).nodes@[n].traits
                &&& fields_model(final(ast).nodes@[n].fields@) == collapse_upto(
                    fields_model(old(ast).nodes@[n].fields@),
                    enums_model(old(ast).enums@),
                    old(ast).enums@.len() as int,
                )
            },
        final(ast).enums == old(ast).enums,
        final(ast).tokens == old(ast).tokens,
{
    let ghost ems = enums_model(old(ast).enums@);
    let n_nodes = ast.nodes.len();
    let mut n: usize = 0;
    while n < n_nodes
        invariant
            n <= n_nodes,
            n_nodes == ast.nodes@.len(),
            ast.enums == old(ast).enums,
            ast.tokens == old(ast).tokens,
            ems == enums_model(ast.enums@),
            forall|k: int| n <= k < n_nodes ==> ast.nodes@[k] == old(ast).nodes@[k],
            forall|k: int|
                0 <= k < n ==> {
                    &&& (#[trigger] ast.nodes@[k]).name == old(ast).nodes@[k].name
                    &&& ast.nodes@[k].doc == old(ast).nodes@[k].doc
                    &&& ast.nodes@[k].traits == old(ast).nodes@[k].traits
                    &&& fields_model(ast.nodes@[k].fields@) == collapse_upto(
                        fields_model(old(ast).nodes@[k].fields@),
                        ems,
                        ems.len() as int,
                    )
                },
        decreases n_nodes - n,
    {
        let ghost pre_nodes = ast.nodes@;
        let mut node = ast.nodes.remove(n);
        let ghost f0 = fields_model(node.fields@);
        let n_enums = ast.enums.len();
        let mut e: usize = 0;
        while e < n_enums
            invariant
                e <= n_enums,
                n_enums == ast.enums@.len(),
                ems == enums_model(ast.enums@),
                node.name == pre_nodes[n as int].name,
                node.doc == pre_nodes[n as int].doc,
                node.traits == pre_nodes[n as int].traits,
                fields_model(node.fields@) == collapse_upto(f0, ems, e as int),
            decreases n_enums - e,
        {
            let enm = &ast.enums[e];
            let ghost em = ems[e as int];
            proof {
                assert(em == enum_model(ast.enums@[e as int]));
            }
            let ghost fcur = fields_model(node.fields@);
            let mut kept: Vec<GrammarNodeField> = Vec::new();
            let mut cnt: usize = 0;
            let nf = node.fields.len();
            proof {
                assert(fcur.take(0) =~= Seq::<FieldModel>::empty());
                assert(fields_model(kept@) =~= Seq::<FieldModel>::empty());
            }
            let mut i: usize = 0;
            while i < nf
                invariant
                    i <= nf,
                    nf == node.fields@.len(),
                    fcur == fields_model(node.fields@),
                    em.variants == names_model(enm.variants@),
                    cnt as int == variant_field_count(fcur.take(i as int), em.variants),
                    cnt <= i,
                    fields_model(kept@) == drop_variant_fields(fcur.take(i as int), em.variants),
                decreases nf - i,
            {
                let ty = node.fields[i].ty();
                let is_variant = name_in(&enm.variants, &ty);
                proof {
                    assert(fcur.take(i + 1).drop_last() =~= fcur.take(i as int));
                    assert(fcur.take(i + 1).last() == fcur[i as int]);
                    assert(is_variant == is_variant_field(fcur[i as int], em.variants));
                }
                if is_variant {
                    cnt = cnt + 1;
                } else {
                    let ghost kept0 = fields_model(kept@);
                    let f = fetch_field(&node, i);
                    kept.push(f);
                    proof {
                        assert(fields_model(kept@) =~= kept0.push(fcur[i as int]));
                    }
                }
                i = i + 1;
            }
            proof {
                assert(fcur.take(nf as int) =~= fcur);
            }
            if cnt == enm.variants.len() && cnt > 0 {
                let ty = copy_bytes(&enm.name);
                let name = to_lower_snake_case(&enm.name);
                let ghost keptm = fields_model(kept@);
                node.fields = kept;
                node.fields.push(
                    GrammarNodeField::Node { name, ty, cardinality: Cardinality::Optional },
                );
                proof {
                    assert(fields_model(node.fields@) =~= keptm.push(
                        FieldModel::Child {
                            name: lower_snake_spec(em.name, 0),
                            ty: em.name,
                            many: false,
                        },
                    ));
                    assert(fields_model(node.fields@) == collapse_enum(fcur, em));
                }
            } else {
                proof {
                    assert(fields_model(node.fields@) == collapse_enum(fcur, em));
                }
            }
            e = e + 1;
        }
        ast.nodes.insert(n, node);
        proof {
            assert forall|k: int| 0 <= k < n_nodes && k != n implies ast.nodes@[k] == pre_nodes[k]
                by {}
        }
        n = n + 1;
    }
}

// ---------------------------------------------------------------------
// Trait extraction.
// ---------------------------------------------------------------------

/// How many fields have an accessor name among `methods`.
pub open spec fn method_field_count(fs: Seq<FieldModel>, methods: Seq<Seq<u8>>) -> int
    decreases fs.len(),
{
    if fs.len() == 0 {
        0
    } else {
        method_field_count(fs.drop_last(), methods) + (if in_names(
            field_method_model(fs.last()),
            methods,
        ) {
            1int
        } else {
            0int
        })
    }
}

/// The fields whose accessor name is not among `methods`, in order.
pub open spec fn drop_method_fields(fs: Seq<FieldModel>, methods: Seq<Seq<u8>>) -> Seq<FieldModel>
    decreases fs.len(),
{
    if fs.len() == 0 {
        Seq::empty()
    } else {
        let rest = drop_method_fields(fs.drop_last(), methods);
        if in_names(field_method_model(fs.last()), methods) {
            rest
        } else {
            rest.push(fs.last())
        }
    }
}

/// One trait's extraction step: when the fields matching the trait's
/// methods number exactly the methods (and there is at least one), they
/// are removed and the trait is recorded; otherwise nothing changes.
pub open spec fn extract_trait_step(
    fs: Seq<FieldModel>,
    traits: Seq<Seq<u8>>,
    name: Seq<u8>,
    methods: Seq<Seq<u8>>,
) -> (Seq<FieldModel>, Seq<Seq<u8>>) {
    if method_field_count(fs, methods) == methods.len() && methods.len() > 0 {
        (drop_method_fields(fs, methods), traits.push(name))
    } else {
        (fs, traits)
    }
}

/// The extraction steps of the first `i` table entries, in order.
pub open spec fn extract_upto(
    fs: Seq<FieldModel>,
    traits: Seq<Seq<u8>>,
    table: Seq<(Seq<u8>, Seq<Seq<u8>>)>,
    i: int,
) -> (Seq<FieldModel>, Seq<Seq<u8>>)
    decreases i,
{
    if i <= 0 || i > table.len() {
        (fs, traits)
    } else {
        let p = extract_upto(fs, traits, table, i - 1);
        extract_trait_step(p.0, p.1, table[i - 1].0, table[i - 1].1)
    }
}

/// The built-in trait table: each trait with the accessor names that
/// identify it.
pub open spec fn trait_table_model() -> Seq<(Seq<u8>, Seq<Seq<u8>>)> {
    seq![
        ("AttrsOwner".spec_bytes(), seq!["attrs".spec_bytes()]),
        ("NameOwner".spec_bytes(), seq!["name".spec_bytes()]),
        ("VisibilityOwner".spec_bytes(), seq!["visibility".spec_bytes()]),
        (
            "GenericParamsOwner".spec_bytes(),
            seq!["generic_param_list".spec_bytes(), "where_clause".spec_bytes()],
        ),
        (
            "TypeBoundsOwner".spec_bytes(),
            seq!["type_bound_list".spec_bytes(), "colon_token".spec_bytes()],
        ),
        ("ModuleItemOwner".spec_bytes(), seq!["items".spec_bytes()]),
        ("LoopBodyOwner".spec_bytes(), seq!["label".spec_bytes(), "loop_body".spec_bytes()]),
        ("ArgListOwner".spec_bytes(), seq!["arg_list".spec_bytes()]),
    ]
}

/// The built-in trait table: a trait is extracted from a node when the
/// node has exactly the trait's accessor methods.
fn struct_trait_table() -> (r: Vec<(Vec<u8>, Vec<Vec<u8>>)>)
    ensures
        r@.len() == trait_table_model().len(),
        forall|i: int|
            0 <= i < r@.len() ==> {
                &&& (#[trigger] r@[i]).0@ == trait_table_model()[i].0
                &&& names_model(r@[i].1@) == trait_table_model()[i].1
            },
{
    let mut table: Vec<(Vec<u8>, Vec<Vec<u8>>)> = Vec::new();
    let mut m1: Vec<Vec<u8>> = Vec::new();
    m1.push(str_to_bytes("attrs"));
    table.push((str_to_bytes("AttrsOwner"), m1));
    let mut m2: Vec<Vec<u8>> = Vec::new();
    m2.push(str_to_bytes("name"));
    table.push((str_to_bytes("NameOwner"), m2));
    let mut m3: Vec<Vec<u8>> = Vec::new();
    m3.push(str_to_bytes("visibility"));
    table.push((str_to_bytes("VisibilityOwner"), m3));
    let mut m4: Vec<Vec<u8>> = Vec::new();
    m4.push(str_to_bytes("generic_param_list"));
    m4.push(str_to_bytes("where_clause"));
    table.push((str_to_bytes("GenericParamsOwner"), m4));
    let mut m5: Vec<Vec<u8>> = Vec::new();
    m5.push(str_to_bytes("type_bound_list"));
    m5.push(str_to_bytes("colon_token"));
    table.push((str_to_bytes("TypeBoundsOwner"), m5));
    let mut m6: Vec<Vec<u8>> = Vec::new();
    m6.push(str_to_bytes("items"));
    table.push((str_to_bytes("ModuleItemOwner"), m6));
    let mut m7: Vec<Vec<u8>> = Vec::new();
    m7.push(str_to_bytes("label"));
    m7.push(str_to_bytes("loop_body"));
    table.push((str_to_bytes("LoopBodyOwner"), m7));
    let mut m8: Vec<Vec<u8>> = Vec::new();
    m8.push(str_to_bytes("arg_list"));
    table.push((str_to_bytes("ArgListOwner"), m8));
    proof {
        assert forall|i: int| 0 <= i < table@.len() implies {
            &&& (#[trigger] table@[i]).0@ == trait_table_model()[i].0
            &&& names_model(table@[i].1@) == trait_table_model()[i].1
        } by {
            assert(names_model(table@[i].1@) =~= trait_table_model()[i].1);
        }
    }
    table
}

/// Extracts one trait from a node if the node carries exactly the
/// trait's methods: those fields are removed and the trait recorded,
/// else nothing changes.
pub fn extract_struct_trait(node: &mut GrammarNode, trait_name: &Vec<u8>, methods: &Vec<Vec<u8>>)
    ensures
        final(node).name == old(node).name,
        final(node).doc == old(node).doc,
        ({
            let st = extract_trait_step(
                fields_model(old(node).fields@),
                names_model(old(node).traits@),
                trait_name@,
                names_model(methods@),
            );
            &&& fields_model(final(node).fields@) == st.0
            &&& names_model(final(node).traits@) == st.1
        }),
{
    let ghost f0 = fields_model(node.fields@);
    let ghost ms = names_model(methods@);
    let mut kept: Vec<GrammarNodeField> = Vec::new();
    let mut cnt: usize = 0;
    let nf = node.fields.len();
    proof {
        assert(f0.take(0) =~= Seq::<FieldModel>::empty());
        assert(fields_model(kept@) =~= Seq::<FieldModel>::empty());
    }
    let mut i: usize = 0;
    while i < nf
        invariant
            i <= nf,
            nf == node.fields@.len(),
            f0 == fields_model(node.fields@),
            ms == names_model(methods@),
            cnt as int == method_field_count(f0.take(i as int), ms),
            cnt <= i,
            fields_model(kept@) == drop_method_fields(f0.take(i as int), ms),
        decreases nf - i,
    {
        let mname = node.fields[i].method_name();
        let found = name_in(methods, &mname);
        proof {
            assert(f0.take(i + 1).drop_last() =~= f0.take(i as int));
            assert(f0.take(i + 1).last() == f0[i as int]);
            assert(found == in_names(field_method_model(f0[i as int]), ms));
        }
        if found {
            cnt = cnt + 1;
        } else {
            let ghost kept0 = fields_model(kept@);
            let f = fetch_field(&node, i);
            kept.push(f);
            proof {
                assert(fields_model(kept@) =~= kept0.push(f0[i as int]));
            }
        }
        i = i + 1;
    }
    proof {
        assert(f0.take(nf as int) =~= f0);
    }
    if cnt == methods.len() && cnt > 0 {
        let ghost tr0 = names_model(node.traits@);
        node.traits.push(copy_bytes(trait_name));
        node.fields = kept;
        proof {
            assert(names_model(node.traits@) =~= tr0.push(trait_name@));
        }
    }
}

/// Runs the trait table over every node: each node's fields and traits
/// become the table's extraction steps applied in order.
pub fn extract_struct_traits(ast: &mut GrammarAST)
    ensures
        final(ast).nodes@.len() == old(ast).nodes@.len(),
        forall|n: int|
            0 <= n < old(ast).nodes@.len() ==> {
                &&& (#[trigger] final(ast).nodes@[n]).name == old(ast).nodes@[n].name
                &&& final(ast).nodes@[n].doc == old(ast).nodes@[n].doc
                &&& ({
                    let st = extract_upto(
                        fields_model(old(ast).nodes@[n].fields@),
                        names_model(old(ast).nodes@[n].traits@),
                        trait_table_model(),
                        trait_table_model().len() as int,
                    );
                    &&& fields_model(final(ast).nodes@[n].fields@) == st.0
                    &&& names_model(final(ast).nodes@[n].traits@) == st.1
                })
            },
        final(ast).enums == old(ast).enums,
        final(ast).tokens == old(ast).tokens,
{
    let table = struct_trait_table();
    let ghost tm = trait_table_model();
    let n_nodes = ast.nodes.len();
    let mut n: usize = 0;
    while n < n_nodes
        invariant
            n <= n_nodes,
            n_nodes == ast.nodes@.len(),
            table@.len() == tm.len(),
            forall|k: int|
                0 <= k < table@.len() ==> {
                    &&& (#[trigger] table@[k]).0@ == tm[k].0
                    &&& names_model(table@[k].1@) == tm[k].1
                },
            ast.enums == old(ast).enums,
            ast.tokens == old(ast).tokens,
            forall|k: int| n <= k < n_nodes ==> ast.nodes@[k] == old(ast).nodes@[k],
            forall|k: int|
                0 <= k < n ==> {
                    &&& (#[trigger] ast.nodes@[k]).name == old(ast).nodes@[k].name
                    &&& ast.nodes@[k].doc == old(ast).nodes@[k].doc
                    &&& ({
                        let st = extract_upto(
                            fields_model(old(ast).nodes@[k].fields@),
                            names_model(old(ast).nodes@[k].traits@),
                            tm,
                            tm.len() as int,
                        );
                        &&& fields_model(ast.nodes@[k].fields@) == st.0
                        &&& names_model(ast.nodes@[k].traits@) == st.1
                    })
                },
        decreases n_nodes - n,
    {
        let ghost pre_nodes = ast.nodes@;
        let mut node = ast.nodes.remove(n);
        let ghost f0 = fields_model(node.fields@);
        let ghost t0 = names_model(node.traits@);
        let mut t: usize = 0;
        while t < table.len()
            invariant
                t <= table@.len(),
                table@.len() == tm.len(),
                forall|k: int|
                    0 <= k < table@.len() ==> {
                        &&& (#[trigger] table@[k]).0@ == tm[k].0
                        &&& names_model(table@[k].1@) == tm[k].1
                    },
                node.name == pre_nodes[n as int].name,
                node.doc == pre_nodes[n as int].doc,
                fields_model(node.fields@) == extract_upto(f0, t0, tm, t as int).0,
                names_model(node.traits@) == extract_upto(f0, t0, tm, t as int).1,
            decreases table@.len() - t,
        {
            let (ref tname, ref methods) = table[t];
            extract_struct_trait(&mut node, tname, methods);
            t = t + 1;
        }
        ast.nodes.insert(n, node);
        proof {
            assert forall|k: int| 0 <= k < n_nodes && k != n implies ast.nodes@[k] == pre_nodes[k]
                by {}
        }
        n = n + 1;
    }
}

// ---------------------------------------------------------------------
// Enum trait inheritance.
// ---------------------------------------------------------------------

/// The index of the first node with the given name, searching from `i`.
pub open spec fn find_node_spec(nodes: Seq<NodeModel>, name: Seq<u8>, i: int) -> Option<int>
    decreases nodes.len() - i,
{
    if i < 0 || i >= nodes.len() {
        None
    } else if nodes[i].name == name {
        Some(i)
    } else {
        find_node_spec(nodes, name, i + 1)
    }
}

/// The names of `cur` that also occur in `other`, in `cur`'s order.
pub open spec fn intersect_names(cur: Seq<Seq<u8>>, other: Seq<Seq<u8>>) -> Seq<Seq<u8>>
    decreases cur.len(),
{
    if cur.len() == 0 {
        Seq::empty()
    } else {
        let rest = intersect_names(cur.drop_last(), other);
        if in_names(cur.last(), other) {
            rest.push(cur.last())
        } else {
            rest
        }
    }
}

/// The traits shared by the first `v` variants: the first variant's
/// traits intersected with each following variant's (a missing variant
/// clears the set).
pub open spec fn shared_upto(nodes: Seq<NodeModel>, variants: Seq<Seq<u8>>, v: int) -> Seq<Seq<u8>>
    decreases v,
{
    if v <= 1 {
        match find_node_spec(nodes, variants[0], 0) {
            Some(i) => nodes[i].traits,
            None => Seq::empty(),
        }
    } else {
        let prev = shared_upto(nodes, variants, v - 1);
        match find_node_spec(nodes, variants[v - 1], 0) {
            Some(i) => intersect_names(prev, nodes[i].traits),
            None => Seq::empty(),
        }
    }
}

/// The traits an enum takes: the traits shared by all of its variants;
/// the statement enum, an empty enum, and an enum whose first variant
/// has no node keep their old traits.
pub open spec fn enum_traits_spec(
    nodes: Seq<NodeModel>,
    e: EnumModel,
    old_traits: Seq<Seq<u8>>,
) -> Seq<Seq<u8>> {
    if e.name == "Stmt".spec_bytes() || e.variants.len() == 0 {
        old_traits
    } else {
        match find_node_spec(nodes, e.variants[0], 0) {
            Some(_) => shared_upto(nodes, e.variants, e.variants.len() as int),
            None => old_traits,
        }
    }
}

/// The index of the node with the given name, if any.
fn find_node(nodes: &Vec<GrammarNode>, name: &Vec<u8>) -> (r: Option<usize>)
    ensures
        match r {
            Some(i) => i < nodes@.len() && find_node_spec(nodes_model(nodes@), name@, 0) == Some(
                i as int,
            ),
            None => find_node_spec(nodes_model(nodes@), name@, 0) is None,
        },
{
    let ghost m = nodes_model(nodes@);
    let mut i: usize = 0;
    while i < nodes.len()
        invariant
            i <= nodes@.len(),
            m == nodes_model(nodes@),
            find_node_spec(m, name@, 0) == find_node_spec(m, name@, i as int),
        decreases nodes@.len() - i,
    {
        if bytes_eq(&nodes[i].name, name) {
            proof {
                assert(m[i as int].name == name@);
            }
            return Some(i);
        }
        proof {
            assert(m[i as int].name != name@);
        }
        i = i + 1;
    }
    None
}

/// Keeps exactly the names that also occur in `other`, in order.
fn intersect_traits(current: Vec<Vec<u8>>, other: &Vec<Vec<u8>>) -> (r: Vec<Vec<u8>>)
    ensures
        names_model(r@) == intersect_names(names_model(current@), names_model(other@)),
{
    let ghost cm = names_model(current@);
    let ghost om = names_model(other@);
    let mut out: Vec<Vec<u8>> = Vec::new();
    let mut i: usize = 0;
    let n = current.len();
    let mut cur = current;
    proof {
        assert(cm.take(0) =~= Seq::<Seq<u8>>::empty());
        assert(names_model(out@) =~= Seq::<Seq<u8>>::empty());
    }
    while i < n
        invariant
            i <= n,
            n == cur@.len() + i,
            n == cm.len(),
            om == names_model(other@),
            names_model(cur@) =~= cm.subrange(i as int, n as int),
            names_model(out@) == intersect_names(cm.take(i as int), om),
        decreases n - i,
    {
        let ghost cur0 = cur@;
        let name = cur.remove(0);
        proof {
            assert(names_model(cur0)[0] == cm.subrange(i as int, n as int)[0]);
            assert(name@ == cm[i as int]);
            assert(cur@ =~= cur0.subrange(1, cur0.len() as int));
            assert(names_model(cur@) =~= cm.subrange(i as int + 1, n as int)) by {
                assert forall|j: int| 0 <= j < cur@.len() implies names_model(cur@)[j]
                    == cm.subrange(i as int + 1, n as int)[j] by {
                    assert(names_model(cur0)[j + 1] == cm.subrange(i as int, n as int)[j + 1]);
                }
            }
            assert(cm.take(i + 1).drop_last() =~= cm.take(i as int));
            assert(cm.take(i + 1).last() == cm[i as int]);
        }
        let found = name_in(other, &name);
        if found {
            let ghost out0 = names_model(out@);
            out.push(name);
            proof {
                assert(names_model(out@) =~= out0.push(cm[i as int]));
            }
        }
        i = i + 1;
    }
    proof {
        assert(cm.take(n as int) =~= cm);
    }
    out
}

/// An enum inherits exactly the traits shared by all of its variants
/// (the statement enum is left alone, as in the grammar's own policy).
pub fn extract_enum_traits(ast: &mut GrammarAST)
    ensures
        final(ast).nodes == old(ast).nodes,
        final(ast).tokens == old(ast).tokens,
        final(ast).enums@.len() == old(ast).enums@.len(),
        forall|e: int|
            0 <= e < old(ast).enums@.len() ==> {
                &&& (#[trigger] final(ast).enums@[e]).name == old(ast).enums@[e].name
                &&& final(ast).enums@[e].doc == old(ast).enums@[e].doc
                &&& final(ast).enums@[e].variants == old(ast).enums@[e].variants
                &&& names_model(final(ast).enums@[e].traits@) == enum_traits_spec(
                    nodes_model(old(ast).nodes@),
                    enum_model(old(ast).enums@[e]),
                    names_model(old(ast).enums@[e].traits@),
                )
            },
{
    let ghost nm = nodes_model(old(ast).nodes@);
    let n_enums = ast.enums.len();
    let mut e: usize = 0;
    while e < n_enums
        invariant
            e <= n_enums,
            n_enums == ast.enums@.len(),
            ast.nodes == old(ast).nodes,
            ast.tokens == old(ast).tokens,
            nm == nodes_model(ast.nodes@),
            forall|k: int| e <= k < n_enums ==> ast.enums@[k] == old(ast).enums@[k],
            forall|k: int|
                0 <= k < e ==> {
                    &&& (#[trigger] ast.enums@[k]).name == old(ast).enums@[k].name
                    &&& ast.enums@[k].doc == old(ast).enums@[k].doc
                    &&& ast.enums@[k].variants == old(ast).enums@[k].variants
                    &&& names_model(ast.enums@[k].traits@) == enum_traits_spec(
                        nm,
                        enum_model(old(ast).enums@[k]),
                        names_model(old(ast).enums@[k].traits@),
                    )
                },
        decreases n_enums - e,
    {
        let ghost pre_enums = ast.enums@;
        let mut enm = ast.enums.remove(e);
        let ghost em = enum_model(enm);
        let ghost tr_old = names_model(enm.traits@);
        if !bytes_eq_str(&enm.name, "Stmt") && enm.variants.len() > 0 {
            // start from the first variant's traits and intersect
            proof {
                assert(names_model(enm.variants@)[0] == enm.variants@[0]@);
            }
            match find_node(&ast.nodes, &enm.variants[0]) {
                Some(first) => {
                    let mut shared: Vec<Vec<u8>> = Vec::new();
                    let mut t: usize = 0;
                    while t < ast.nodes[first].traits.len()
                        invariant
                            first < ast.nodes@.len(),
                            t <= ast.nodes@[first as int].traits@.len(),
                            names_model(shared@) =~= names_model(
                                ast.nodes@[first as int].traits@,
                            ).take(t as int),
                        decreases ast.nodes@[first as int].traits@.len() - t,
                    {
                        let ghost s0 = names_model(shared@);
                        shared.push(copy_bytes(&ast.nodes[first].traits[t]));
                        proof {
                            assert(names_model(shared@) =~= s0.push(
                                names_model(ast.nodes@[first as int].traits@)[t as int],
                            ));
                            assert(names_model(ast.nodes@[first as int].traits@).take(t + 1)
                                =~= names_model(ast.nodes@[first as int].traits@).take(
                                t as int,
                            ).push(names_model(ast.nodes@[first as int].traits@)[t as int]));
                        }
                        t = t + 1;
                    }
                    proof {
                        let ftr = names_model(ast.nodes@[first as int].traits@);
                        assert(ftr.take(ftr.len() as int) =~= ftr);
                        assert(nm[first as int].traits == ftr);
                        assert(names_model(shared@) == shared_upto(nm, em.variants, 1));
                    }
                    let mut v: usize = 1;
                    while v < enm.variants.len()
                        invariant
                            1 <= v <= enm.variants@.len(),
                            em == enum_model(enm),
                            nm == nodes_model(ast.nodes@),
                            names_model(shared@) == shared_upto(nm, em.variants, v as int),
                        decreases enm.variants@.len() - v,
                    {
                        proof {
                            assert(names_model(enm.variants@)[v as int] == enm.variants@[v as int]@);
                        }
                        match find_node(&ast.nodes, &enm.variants[v]) {
                            Some(idx) => {
                                proof {
                                    assert(nm[idx as int].traits == names_model(
                                        ast.nodes@[idx as int].traits@,
                                    ));
                                }
                                shared = intersect_traits(shared, &ast.nodes[idx].traits);
                            },
                            None => {
                                shared = Vec::new();
                                proof {
                                    assert(names_model(shared@) =~= Seq::<Seq<u8>>::empty());
                                }
                            },
                        }
                        v = v + 1;
                    }
                    enm.traits = shared;
                    proof {
                        assert(names_model(enm.traits@) == enum_traits_spec(nm, em, tr_old));
                    }
                },
                None => {
                    proof {
                        assert(names_model(enm.traits@) == enum_traits_spec(nm, em, tr_old));
                    }
                },
            }
        } else {
            proof {
                assert(names_model(enm.traits@) == enum_traits_spec(nm, em, tr_old));
            }
        }
        ast.enums.insert(e, enm);
        proof {
            assert forall|k: int| 0 <= k < n_enums && k != e implies ast.enums@[k] == pre_enums[k]
                by {}
        }
        e = e + 1;
    }
}

// ---------------------------------------------------------------------
// The whole pass.
// ---------------------------------------------------------------------

/// The fixed token-wrapper name list the lowering always emits.
pub open spec fn token_names_spec() -> Seq<Seq<u8>> {
    seq![
        "Whitespace".spec_bytes(),
        "Comment".spec_bytes(),
        "HexString".spec_bytes(),
        "ByteString".spec_bytes(),
        "IntegerNumber".spec_bytes(),
    ]
}

/// The enums the definitions lower to, before trait inheritance: one per
/// pure alternation, in definition order, with its variant names.
pub open spec fn pre_enums(defs: Seq<GrammarRuleDef>) -> Seq<EnumModel>
    decreases defs.len(),
{
    if defs.len() == 0 {
        Seq::empty()
    } else {
        let rest = pre_enums(defs.drop_last());
        match lower_enum_spec(defs.last().rule) {
            Some(vs) => rest.push(EnumModel { name: defs.last().name@, variants: vs }),
            None => rest,
        }
    }
}

/// The nodes the definitions lower to, before the rewrite passes: one
/// per non-alternation definition, in order, with `lower_rule_spec`'s
/// fields and no traits.
pub open spec fn pre_nodes(defs: Seq<GrammarRuleDef>) -> Seq<NodeModel>
    decreases defs.len(),
{
    if defs.len() == 0 {
        Seq::empty()
    } else {
        let rest = pre_nodes(defs.drop_last());
        match lower_enum_spec(defs.last().rule) {
            Some(_) => rest,
            None => rest.push(
                NodeModel {
                    name: defs.last().name@,
                    traits: Seq::empty(),
                    fields: lower_rule_spec(None, defs.last().rule),
                },
            ),
        }
    }
}

/// A node after the rewrite passes: its raw fields deduplicated, the
/// enums' collapse steps applied, and the trait table extracted.
pub open spec fn lowered_node(nd: NodeModel, es: Seq<EnumModel>) -> NodeModel {
    let f1 = dedup_fields(nd.fields);
    let f2 = collapse_upto(f1, es, es.len() as int);
    let ft = extract_upto(f2, nd.traits, trait_table_model(), trait_table_model().len() as int);
    NodeModel { name: nd.name, traits: ft.1, fields: ft.0 }
}

/// The whole lowering pass: enums for pure alternations, fields for
/// everything else, then deduplication, enum collapsing, and trait
/// extraction, each as its pass's contract states.
pub fn lower(grammar: Vec<GrammarRuleDef>) -> (r: GrammarAST)
    ensures
        names_model(r.tokens@) == token_names_spec(),
        ({
            let es = pre_enums(grammar@);
            let final_nodes = pre_nodes(grammar@).map_values(
                |nd: NodeModel| lowered_node(nd, es),
            );
            &&& nodes_model(r.nodes@) == final_nodes
            &&& r.enums@.len() == es.len()
            &&& (forall|i: int|
                0 <= i < es.len() ==> {
                    &&& (#[trigger] enum_model(r.enums@[i])) == es[i]
                    &&& names_model(r.enums@[i].traits@) == enum_traits_spec(
                        final_nodes,
                        es[i],
                        Seq::empty(),
                    )
                })
        }),
{
    let ghost all_defs = grammar@;
    let mut tokens: Vec<Vec<u8>> = Vec::new();
    tokens.push(str_to_bytes("Whitespace"));
    tokens.push(str_to_bytes("Comment"));
    tokens.push(str_to_bytes("HexString"));
    tokens.push(str_to_bytes("ByteString"));
    tokens.push(str_to_bytes("IntegerNumber"));
    proof {
        assert(names_model(tokens@) =~= token_names_spec());
    }
    let mut ast = GrammarAST { tokens, nodes: Vec::new(), enums: Vec::new() };
    let mut defs = grammar;
    let n = defs.len();
    proof {
        assert(all_defs.take(0) =~= Seq::<GrammarRuleDef>::empty());
        assert(enums_model(ast.enums@) =~= Seq::<EnumModel>::empty());
        assert(nodes_model(ast.nodes@) =~= Seq::<NodeModel>::empty());
    }
    let mut i: usize = 0;
    while i < n
        invariant
            i <= n,
            n == all_defs.len(),
            n == defs@.len() + i,
            defs@ =~= all_defs.subrange(i as int, n as int),
            names_model(ast.tokens@) == token_names_spec(),
            enums_model(ast.enums@) == pre_enums(all_defs.take(i as int)),
            forall|k: int|
                0 <= k < ast.enums@.len() ==> (#[trigger] ast.enums@[k].traits@).len() == 0,
            nodes_model(ast.nodes@) == pre_nodes(all_defs.take(i as int)),
        decreases n - i,
    {
        let def = defs.remove(0);
        proof {
            assert(def == all_defs[i as int]);
            assert(defs@ =~= all_defs.subrange(i as int + 1, n as int));
            assert(all_defs.take(i + 1).drop_last() =~= all_defs.take(i as int));
            assert(all_defs.take(i + 1).last() == all_defs[i as int]);
        }
        let ghost ems0 = enums_model(ast.enums@);
        let ghost nms0 = nodes_model(ast.nodes@);
        match lower_enum(&def.rule) {
            Some(variants) => {
                let ghost vm = names_model(variants@);
                ast.enums.push(
                    GrammarEnum {
                        doc: Vec::new(),
                        name: def.name,
                        traits: Vec::new(),
                        variants,
                    },
                );
                proof {
                    assert(enums_model(ast.enums@) =~= ems0.push(
                        EnumModel { name: all_defs[i as int].name@, variants: vm },
                    ));
                    assert(nodes_model(ast.nodes@) =~= nms0);
                }
            },
            None => {
                let mut fields: Vec<GrammarNodeField> = Vec::new();
                proof {
                    assert(fields_model(fields@) =~= Seq::<FieldModel>::empty());
                }
                lower_rule(&mut fields, None, &def.rule);
                proof {
                    assert(fields_model(fields@) =~= Seq::<FieldModel>::empty() + lower_rule_spec(
                        None,
                        all_defs[i as int].rule,
                    ));
                    assert(Seq::<FieldModel>::empty() + lower_rule_spec(
                        None,
                        all_defs[i as int].rule,
                    ) =~= lower_rule_spec(None, all_defs[i as int].rule));
                }
                let ghost fm = fields_model(fields@);
                ast.nodes.push(
                    GrammarNode { doc: Vec::new(), name: def.name, traits: Vec::new(), fields },
                );
                proof {
                    assert(names_model(ast.nodes@.last().traits@) =~= Seq::<Seq<u8>>::empty());
                    assert(nodes_model(ast.nodes@) =~= nms0.push(
                        NodeModel {
                            name: all_defs[i as int].name@,
                            traits: Seq::empty(),
                            fields: fm,
                        },
                    ));
                    assert(enums_model(ast.enums@) =~= ems0);
                }
            },
        }
        i = i + 1;
    }
    proof {
        assert(all_defs.take(n as int) =~= all_defs);
    }
    let ghost es = pre_enums(all_defs);
    let ghost ns = pre_nodes(all_defs);
    let ghost ast1 = ast;
    deduplicate_fields(&mut ast);
    let ghost ast2 = ast;
    extract_enums(&mut ast);
    let ghost ast3 = ast;
    extract_struct_traits(&mut ast);
    let ghost ast4 = ast;
    extract_enum_traits(&mut ast);
    proof {
        // the passes compose pointwise into `lowered_node`
        assert(enums_model(ast1.enums@) == es);
        assert(ast4.enums == ast1.enums);
        assert(nodes_model(ast.nodes@) =~= ns.map_values(|nd: NodeModel| lowered_node(nd, es)))
            by {
            assert(ast.nodes@.len() == ns.len());
            assert forall|k: int| 0 <= k < ns.len() implies nodes_model(ast.nodes@)[k]
                == lowered_node(ns[k], es) by {
                assert(node_model(ast1.nodes@[k]) == ns[k]);
                assert(fields_model(ast2.nodes@[k].fields@) == dedup_fields(ns[k].fields));
                assert(names_model(ast2.nodes@[k].traits@) == ns[k].traits);
                assert(enums_model(ast2.enums@) == es);
                assert(fields_model(ast3.nodes@[k].fields@) == collapse_upto(
                    dedup_fields(ns[k].fields),
                    es,
                    es.len() as int,
                ));
                assert(names_model(ast3.nodes@[k].traits@) == ns[k].traits);
                assert(ast.nodes@[k] == ast4.nodes@[k]);
                assert(ast.nodes@[k].name@ == ns[k].name);
            }
        }
        assert(ast.enums@.len() == es.len());
        assert forall|k: int| 0 <= k < es.len() implies {
            &&& (#[trigger] enum_model(ast.enums@[k])) == es[k]
            &&& names_model(ast.enums@[k].traits@) == enum_traits_spec(
                nodes_model(ast.nodes@),
                es[k],
                Seq::empty(),
            )
        } by {
            assert(enum_model(ast4.enums@[k]) == es[k]);
            assert(enum_model(ast.enums@[k]) =~~= es[k]) by {
                assert(ast.enums@[k].name == ast4.enums@[k].name);
                assert(ast.enums@[k].variants == ast4.enums@[k].variants);
            }
            assert(names_model(ast4.enums@[k].traits@) =~= Seq::<Seq<u8>>::empty()) by {
                assert(ast4.enums@[k].traits@.len() == 0);
            }
            assert(names_model(ast.enums@[k].traits@) == enum_traits_spec(
                nodes_model(ast4.nodes@),
                enum_model(ast4.enums@[k]),
                names_model(ast4.enums@[k].traits@),
            ));
        }
    }
    ast
}

} // verus!
