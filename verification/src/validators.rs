//! The validators: what they expect of a document, and the rules that they
//! apply to its elements.

use vstd::prelude::*;
use vstd::string::*;

use crate::diagnostic::{Diagnostic, PathSegment, Severity};
use crate::registry::ValidatorRegistry;

verus! {

/// What a rule has to be told of an element.
#[derive(Debug, Clone, Copy, PartialEq, Eq, Structural)]
pub enum NodeNeeds {
    Attrs,
    Children,
}

/// An element of a document, as far as rules look at it.
#[derive(Debug)]
pub struct Node {
    /// The names of the attributes.
    pub attributes: Vec<String>,
    /// The number of child elements.
    pub child_count: usize,
    /// The way from the root to the element.
    pub path: Vec<PathSegment>,
    /// The element's number in the document.
    pub element_index: usize,
}

impl Node {
    /// Whether the element has an attribute of the given name.
    pub open spec fn carries(self, name: Seq<char>) -> bool {
        exists|i: int| 0 <= i < self.attributes@.len() && (#[trigger] self.attributes@[i])@ == name
    }

    /// Whether the element has an attribute of the given name.
    pub fn has_attr(&self, name: &str) -> (found: bool)
        ensures
            found == self.carries(name@),
            found <==> exists|i: int|
                0 <= i < self.attributes@.len() && (#[trigger] self.attributes@[i])@ == name@,
    {
        let wanted = name.to_owned();
        let mut i: usize = 0;
        while i < self.attributes.len()
            invariant
                i <= self.attributes@.len(),
                wanted@ == name@,
                forall|j: int| 0 <= j < i ==> (#[trigger] self.attributes@[j])@ != name@,
            decreases self.attributes@.len() - i,
        {
            if self.attributes[i] == wanted {
                return true;
            }
            i = i + 1;
        }
        false
    }
}

/// Whether `d` is the finding of a rule on an element: it names the rule and
/// says where the element is, its number cut to 32 bits.
pub open spec fn is_finding(
    d: Diagnostic,
    rule: Seq<char>,
    severity: Severity,
    message: Seq<char>,
    node: Node,
) -> bool {
    &&& d.rule_name@ == rule
    &&& d.severity == severity
    &&& d.message@ == message
    &&& d.element_path@ == node.path@
    &&& d.element_index == node.element_index as int % 0x1_0000_0000
}

/// Makes the finding of a rule on an element.
fn finding(rule: &str, severity: Severity, message: String, node: &Node) -> (d: Diagnostic)
    ensures
        is_finding(d, rule@, severity, message@, *node),
{
    let index: usize = node.element_index;
    assert(index as u32 == index as u64 % 0x1_0000_0000) by (bit_vector);
    let element_path = node.path.clone();
    assert(element_path@ == node.path@);
    Diagnostic {
        rule_name: rule.to_owned(),
        severity,
        message,
        element_path,
        element_index: index as u32,
    }
}

/// Demands an attribute of an element.
#[derive(Debug, Clone, Copy)]
pub struct RequireAttr {
    pub attr_name: &'static str,
}

impl RequireAttr {
    /// The name of the rule.
    pub fn name(&self) -> (name: &str)
        ensures
            name@ == "require_attr"@,
    {
        "require_attr"
    }

    /// What the rule looks at.
    pub fn needs(&self) -> (needs: NodeNeeds)
        ensures
            needs == NodeNeeds::Attrs,
    {
        NodeNeeds::Attrs
    }

    /// Whether the rule finds fault with an element.
    pub open spec fn faults(self, node: Node) -> bool {
        !node.carries(self.attr_name@)
    }

    /// What the rule says of a fault.
    pub open spec fn complaint(self) -> Seq<char> {
        "missing required attribute '"@ + self.attr_name@ + "'"@
    }

    /// Reports one error where the attribute is missing.
    pub fn evaluate(&self, node: &Node) -> (found: Vec<Diagnostic>)
        ensures
            found@.len() == (if self.faults(*node) { 1nat } else { 0 }),
            self.faults(*node) ==> is_finding(
                found@[0],
                "require_attr"@,
                Severity::Error,
                self.complaint(),
                *node,
            ),
            found@.len() == 0 <==> exists|i: int|
                0 <= i < node.attributes@.len() && (#[trigger] node.attributes@[i])@
                    == self.attr_name@,
            found@.len() > 0 ==> {
                &&& found@.len() == 1
                &&& found@[0].rule_name@ == "require_attr"@
                &&& found@[0].severity is Error
                &&& found@[0].message@ == "missing required attribute '"@ + self.attr_name@ + "'"@
                &&& found@[0].element_path@ == node.path@
                &&& found@[0].element_index == node.element_index as int % 0x1_0000_0000
            },
    {
        let mut found: Vec<Diagnostic> = Vec::new();
        if !node.has_attr(self.attr_name) {
            let mut message = "missing required attribute '".to_owned();
            message.append(self.attr_name);
            message.append("'");
            found.push(finding(self.name(), Severity::Error, message, node));
        }
        found
    }
}

/// Expects an element to have child elements.
#[derive(Debug, Clone, Copy)]
pub struct RequireChildren;

impl RequireChildren {
    /// The name of the rule.
    pub fn name(&self) -> (name: &str)
        ensures
            name@ == "require_children"@,
    {
        "require_children"
    }

    /// What the rule looks at.
    pub fn needs(&self) -> (needs: NodeNeeds)
        ensures
            needs == NodeNeeds::Children,
    {
        NodeNeeds::Children
    }

    /// Whether the rule finds fault with an element.
    pub open spec fn faults(self, node: Node) -> bool {
        node.child_count == 0
    }

    /// Reports one warning where there are no children.
    pub fn evaluate(&self, node: &Node) -> (found: Vec<Diagnostic>)
        ensures
            found@.len() == (if self.faults(*node) { 1nat } else { 0 }),
            self.faults(*node) ==> is_finding(
                found@[0],
                "require_children"@,
                Severity::Warning,
                "element has no children"@,
                *node,
            ),
            found@.len() == 0 <==> node.child_count > 0,
            found@.len() > 0 ==> {
                &&& found@.len() == 1
                &&& found@[0].rule_name@ == "require_children"@
                &&& found@[0].severity is Warning
                &&& found@[0].message@ == "element has no children"@
                &&& found@[0].element_path@ == node.path@
                &&& found@[0].element_index == node.element_index as int % 0x1_0000_0000
            },
    {
        let mut found: Vec<Diagnostic> = Vec::new();
        if node.child_count == 0 {
            let message = "element has no children".to_owned();
            found.push(finding(self.name(), Severity::Warning, message, node));
        }
        found
    }
}

/// A rule of a validator.
#[derive(Debug, Clone, Copy)]
pub enum Rule {
    RequireAttr(RequireAttr),
    RequireChildren(RequireChildren),
}

impl Rule {
    /// Whether the rule finds fault with an element.
    pub open spec fn faults(self, node: Node) -> bool {
        match self {
            Rule::RequireAttr(rule) => rule.faults(node),
            Rule::RequireChildren(rule) => rule.faults(node),
        }
    }

    /// Whether `d` is what the rule says of an element that it finds fault
    /// with.
    pub open spec fn says(self, d: Diagnostic, node: Node) -> bool {
        match self {
            Rule::RequireAttr(rule) => is_finding(
                d,
                "require_attr"@,
                Severity::Error,
                rule.complaint(),
                node,
            ),
            Rule::RequireChildren(_) => is_finding(
                d,
                "require_children"@,
                Severity::Warning,
                "element has no children"@,
                node,
            ),
        }
    }

    /// The name of the rule.
    pub fn name(&self) -> (name: &str)
        ensures
            name@ == (match self {
                Rule::RequireAttr(_) => "require_attr"@,
                Rule::RequireChildren(_) => "require_children"@,
            }),
    {
        match self {
            Rule::RequireAttr(rule) => rule.name(),
            Rule::RequireChildren(rule) => rule.name(),
        }
    }

    /// What the rule looks at.
    pub fn needs(&self) -> (needs: NodeNeeds)
        ensures
            needs == (match self {
                Rule::RequireAttr(_) => NodeNeeds::Attrs,
                Rule::RequireChildren(_) => NodeNeeds::Children,
            }),
    {
        match self {
            Rule::RequireAttr(rule) => rule.needs(),
            Rule::RequireChildren(rule) => rule.needs(),
        }
    }

    /// Reports one finding where the rule finds fault with an element.
    pub fn evaluate(&self, node: &Node) -> (found: Vec<Diagnostic>)
        ensures
            found@.len() == (if self.faults(*node) { 1nat } else { 0 }),
            self.faults(*node) ==> self.says(found@[0], *node),
    {
        match self {
            Rule::RequireAttr(rule) => rule.evaluate(node),
            Rule::RequireChildren(rule) => rule.evaluate(node),
        }
    }
}

/// What a validator expects of an element: its name, the rules for it, and its
/// child elements.
#[derive(Debug)]
pub struct NodeDescriptor {
    pub name: String,
    /// Whether the element is checked as it is read.
    pub streaming: bool,
    pub rules: Vec<Rule>,
    pub children: Vec<NodeDescriptor>,
}

/// What a validator expects of a document: the root element.
#[derive(Debug)]
pub struct DescriptorTree {
    pub root: NodeDescriptor,
}

/// Whether `rule` demands the attribute `name`.
pub open spec fn demands_attr(rule: Rule, name: Seq<char>) -> bool {
    rule matches Rule::RequireAttr(r) && r.attr_name@ == name
}

/// Whether `tree` is the catalog validator: a `catalog` with a `version` and
/// with children, and in it `entry` elements with an `id`.
pub open spec fn is_catalog(tree: DescriptorTree) -> bool {
    &&& tree.root.name@ == "catalog"@
    &&& tree.root.streaming
    &&& tree.root.rules@.len() == 2
    &&& demands_attr(tree.root.rules@[0], "version"@)
    &&& tree.root.rules@[1] is RequireChildren
    &&& tree.root.children@.len() == 1
    &&& tree.root.children@[0].name@ == "entry"@
    &&& tree.root.children@[0].streaming
    &&& tree.root.children@[0].rules@.len() == 1
    &&& demands_attr(tree.root.children@[0].rules@[0], "id"@)
    &&& tree.root.children@[0].children@.len() == 0
}

/// Builds the catalog validator, for documents such as
/// `<catalog version="1"><entry id="a"/></catalog>`.
pub fn build_catalog_validator() -> (tree: DescriptorTree)
    ensures
        is_catalog(tree),
        tree.root.name@ == "catalog"@,
        tree.root.children@.len() == 1,
        tree.root.children@[0].name@ == "entry"@,
        tree.root.rules@.len() == 2,
        tree.root.rules@[0] matches Rule::RequireAttr(rule) && rule.attr_name@ == "version"@,
        tree.root.rules@[1] is RequireChildren,
        tree.root.children@[0].rules@.len() == 1,
        tree.root.children@[0].rules@[0] matches Rule::RequireAttr(rule) && rule.attr_name@
            == "id"@,
{
    let mut entry_rules: Vec<Rule> = Vec::new();
    entry_rules.push(Rule::RequireAttr(RequireAttr { attr_name: "id" }));
    let entry = NodeDescriptor {
        name: "entry".to_owned(),
        streaming: true,
        rules: entry_rules,
        children: Vec::new(),
    };
    let mut rules: Vec<Rule> = Vec::new();
    rules.push(Rule::RequireAttr(RequireAttr { attr_name: "version" }));
    rules.push(Rule::RequireChildren(RequireChildren));
    let mut children: Vec<NodeDescriptor> = Vec::new();
    children.push(entry);
    DescriptorTree {
        root: NodeDescriptor { name: "catalog".to_owned(), streaming: true, rules, children },
    }
}

/// Registers all validators.
pub fn register_all(registry: &mut ValidatorRegistry)
    ensures
        is_catalog(*final(registry)@["example-catalog"@]),
        final(registry)@ == old(registry)@.insert(
            "example-catalog"@,
            final(registry)@["example-catalog"@],
        ),
        final(registry)@.contains_key("example-catalog"@),
        forall|id: Seq<char>|
            id != "example-catalog"@ ==> #[trigger] final(registry)@.contains_key(id)
                == old(registry)@.contains_key(id),
        forall|id: Seq<char>|
            id != "example-catalog"@ && old(registry)@.contains_key(id)
                ==> #[trigger] final(registry)@[id] == old(registry)@[id],
{
    registry.register("example-catalog", build_catalog_validator());
}

/// Whether no rule of a descriptor finds fault with an element.
pub open spec fn passes(descriptor: NodeDescriptor, node: Node) -> bool {
    forall|i: int|
        0 <= i < descriptor.rules@.len() ==> !(#[trigger] descriptor.rules@[i]).faults(node)
}

/// The catalog validator accepts exactly the documents it is for: a root with a
/// `version` and with children, and entries with an `id`.
pub proof fn lemma_catalog_accepts(tree: DescriptorTree, root: Node, entry: Node)
    requires
        is_catalog(tree),
    ensures
        passes(tree.root, root) <==> root.carries("version"@) && root.child_count > 0,
        passes(tree.root.children@[0], entry) <==> entry.carries("id"@),
{
    let rules = tree.root.rules@;
    assert(rules[0].faults(root) <==> !root.carries("version"@));
    assert(rules[1].faults(root) <==> root.child_count == 0);
    let entry_rules = tree.root.children@[0].rules@;
    assert(entry_rules[0].faults(entry) <==> !entry.carries("id"@));
}

/// A rule that demands an attribute is content with an element that has it,
/// whichever of its attributes that is and however many there are; and with no
/// other. Where it is not content, it reports one error that names the attribute
/// and the element.
pub proof fn lemma_demanded_attribute(rule: RequireAttr, node: Node, found: Vec<Diagnostic>)
    requires
        call_ensures(RequireAttr::evaluate, (&rule, &node), found),
    ensures
        forall|i: int|
            0 <= i < node.attributes@.len() && (#[trigger] node.attributes@[i])@ == rule.attr_name@
                ==> !rule.faults(node) && found@.len() == 0,
        (forall|i: int|
            0 <= i < node.attributes@.len() ==> (#[trigger] node.attributes@[i])@
                != rule.attr_name@) ==> {
            &&& rule.faults(node)
            &&& found@.len() == 1
            &&& found@[0].rule_name@ == "require_attr"@
            &&& found@[0].severity is Error
            &&& found@[0].message@ == "missing required attribute '"@ + rule.attr_name@ + "'"@
            &&& found@[0].element_path@ == node.path@
            &&& node.element_index <= u32::MAX ==> found@[0].element_index == node.element_index
        },
{
}

/// A rule that demands an attribute stays content when an element is given more
/// attributes, and what else the element has makes no difference to it.
pub proof fn lemma_more_attributes_do_no_harm(
    rule: RequireAttr,
    node: Node,
    richer: Node,
    found: Vec<Diagnostic>,
    found_richer: Vec<Diagnostic>,
)
    requires
        forall|i: int|
            0 <= i < node.attributes@.len() ==> exists|j: int|
                0 <= j < richer.attributes@.len() && (#[trigger] richer.attributes@[j])@ == (
                #[trigger] node.attributes@[i])@,
        call_ensures(RequireAttr::evaluate, (&rule, &node), found),
        call_ensures(RequireAttr::evaluate, (&rule, &richer), found_richer),
    ensures
        found@.len() == 0 ==> found_richer@.len() == 0,
{
    if found@.len() == 0 {
        let i = choose|i: int|
            0 <= i < node.attributes@.len() && (#[trigger] node.attributes@[i])@
                == rule.attr_name@;
        let j = choose|j: int|
            0 <= j < richer.attributes@.len() && (#[trigger] richer.attributes@[j])@
                == node.attributes@[i]@;
        assert(richer.attributes@[j]@ == rule.attr_name@);
    }
}

/// A rule that expects children is content with an element that has any number
/// of them but none. Where there is none, it reports one warning that names the
/// element.
pub proof fn lemma_expected_children(rule: RequireChildren, node: Node, found: Vec<Diagnostic>)
    requires
        call_ensures(RequireChildren::evaluate, (&rule, &node), found),
    ensures
        node.child_count >= 1 ==> !rule.faults(node) && found@.len() == 0,
        node.child_count == 0 ==> {
            &&& rule.faults(node)
            &&& found@.len() == 1
            &&& found@[0].rule_name@ == "require_children"@
            &&& found@[0].severity is Warning
            &&& found@[0].message@ == "element has no children"@
            &&& found@[0].element_path@ == node.path@
            &&& node.element_index <= u32::MAX ==> found@[0].element_index == node.element_index
        },
{
}

/// A rule of a validator finds what it finds by itself.
pub proof fn lemma_rule_finds_as_its_kind(rule: Rule, node: Node, found: Vec<Diagnostic>)
    requires
        call_ensures(Rule::evaluate, (&rule, &node), found),
    ensures
        found@.len() <= 1,
        rule matches Rule::RequireAttr(r) ==> {
            &&& found@.len() == 0 <==> exists|i: int|
                0 <= i < node.attributes@.len() && (#[trigger] node.attributes@[i])@
                    == r.attr_name@
            &&& found@.len() == 1 ==> {
                &&& found@[0].rule_name@ == "require_attr"@
                &&& found@[0].severity is Error
                &&& found@[0].message@ == "missing required attribute '"@ + r.attr_name@ + "'"@
            }
        },
        rule is RequireChildren ==> {
            &&& found@.len() == 0 <==> node.child_count > 0
            &&& found@.len() == 1 ==> {
                &&& found@[0].rule_name@ == "require_children"@
                &&& found@[0].severity is Warning
                &&& found@[0].message@ == "element has no children"@
            }
        },
        found@.len() == 1 ==> found@[0].element_path@ == node.path@,
        found@.len() == 1 && node.element_index <= u32::MAX ==> found@[0].element_index
            == node.element_index,
{
}

/// Findings of a rule on two elements with different numbers, in a document that
/// is not too large to number, name different elements.
pub proof fn lemma_findings_name_their_elements(
    rule: Rule,
    a: Node,
    b: Node,
    found_a: Vec<Diagnostic>,
    found_b: Vec<Diagnostic>,
)
    requires
        a.element_index <= u32::MAX,
        b.element_index <= u32::MAX,
        call_ensures(Rule::evaluate, (&rule, &a), found_a),
        call_ensures(Rule::evaluate, (&rule, &b), found_b),
        found_a@.len() == 1,
        found_b@.len() == 1,
    ensures
        found_a@[0].element_index - found_b@[0].element_index == a.element_index
            - b.element_index,
        found_a@[0].message@ == found_b@[0].message@,
        found_a@[0].severity == found_b@[0].severity,
{
}

/// A finding speaks of the element that it was made on: the whole way to it, and
/// its number as far as 32 bits go.
pub proof fn lemma_finding_is_located(
    d: Diagnostic,
    rule: Seq<char>,
    severity: Severity,
    message: Seq<char>,
    node: Node,
)
    ensures
        is_finding(d, rule, severity, message, node) <==> {
            &&& d.rule_name@ == rule
            &&& d.severity == severity
            &&& d.message@ == message
            &&& d.element_path@ == node.path@
            &&& d.element_index as int == node.element_index as int % 0x1_0000_0000
        },
        is_finding(d, rule, severity, message, node) && node.element_index <= u32::MAX
            ==> d.element_index == node.element_index,
{
}

/// The catalog validator as it is built passes exactly a root with an attribute
/// `version`, among whatever others, and with children, and exactly the entries
/// with an attribute `id`.
pub proof fn lemma_built_catalog_accepts(tree: DescriptorTree, root: Node, entry: Node)
    requires
        call_ensures(build_catalog_validator, (), tree),
    ensures
        tree.root.name@ == "catalog"@,
        tree.root.children@.len() == 1,
        tree.root.children@[0].name@ == "entry"@,
        tree.root.children@[0].children@.len() == 0,
        tree.root.streaming && tree.root.children@[0].streaming,
        (forall|r: int|
            0 <= r < tree.root.rules@.len() ==> !(#[trigger] tree.root.rules@[r]).faults(root))
            <==> (exists|i: int|
            0 <= i < root.attributes@.len() && (#[trigger] root.attributes@[i])@ == "version"@)
            && root.child_count > 0,
        (forall|r: int|
            0 <= r < tree.root.children@[0].rules@.len() ==> !(
            #[trigger] tree.root.children@[0].rules@[r]).faults(entry)) <==> exists|i: int|
            0 <= i < entry.attributes@.len() && (#[trigger] entry.attributes@[i])@ == "id"@,
        passes(tree.root, root) <==> (exists|i: int|
            0 <= i < root.attributes@.len() && (#[trigger] root.attributes@[i])@ == "version"@)
            && root.child_count > 0,
        passes(tree.root.children@[0], entry) <==> exists|i: int|
            0 <= i < entry.attributes@.len() && (#[trigger] entry.attributes@[i])@ == "id"@,
{
    lemma_catalog_accepts(tree, root, entry);
}

/// No other tree is the catalog validator: its elements, their rules and the
/// attributes that these demand are all fixed.
pub proof fn lemma_catalog_is_fixed(tree: DescriptorTree)
    requires
        is_catalog(tree),
    ensures
        tree.root.name@ == "catalog"@,
        tree.root.streaming,
        tree.root.rules@.len() == 2,
        tree.root.rules@[0] matches Rule::RequireAttr(rule) && rule.attr_name@ == "version"@,
        tree.root.rules@[1] is RequireChildren,
        tree.root.children@.len() == 1,
        tree.root.children@[0].name@ == "entry"@,
        tree.root.children@[0].streaming,
        tree.root.children@[0].rules@.len() == 1,
        tree.root.children@[0].rules@[0] matches Rule::RequireAttr(rule) && rule.attr_name@
            == "id"@,
        tree.root.children@[0].children@.len() == 0,
{
}

/// What a rule says it needs is all that it looks at: elements that agree on it
/// are judged alike, however they differ otherwise. And its findings bear the
/// name that it says it has.
pub proof fn lemma_rule_is_as_it_says(
    rule: Rule,
    needs: NodeNeeds,
    name: &str,
    a: Node,
    b: Node,
    found_a: Vec<Diagnostic>,
    found_b: Vec<Diagnostic>,
)
    requires
        call_ensures(Rule::needs, (&rule,), needs),
        call_ensures(Rule::name, (&rule,), name),
        call_ensures(Rule::evaluate, (&rule, &a), found_a),
        call_ensures(Rule::evaluate, (&rule, &b), found_b),
        match needs {
            NodeNeeds::Attrs => a.attributes@ == b.attributes@,
            NodeNeeds::Children => a.child_count == b.child_count,
        },
    ensures
        found_a@.len() == found_b@.len(),
        found_a@.len() > 0 ==> found_a@[0].rule_name@ == name@,
        rule is RequireAttr <==> needs is Attrs,
        rule is RequireAttr ==> name@ == "require_attr"@,
        rule is RequireChildren ==> name@ == "require_children"@,
{
}

} // verus!
