//! The class records that a diagram describes, and their rendering as Java.
use vstd::prelude::*;
use vstd::string::StringExecFns;

verus! {

/// Visibility of a class or of one of its members.
#[derive(Clone, Copy, Debug, PartialEq, Eq, Structural)]
pub enum Visibility {
    Default,
    Private,
    Protected,
    Public,
}

impl Visibility {
    /// The Java access modifier; `Default` has none.
    pub open spec fn keyword(&self) -> Seq<char> {
        match self {
            Visibility::Default => ""@,
            Visibility::Public => "public"@,
            Visibility::Protected => "protected"@,
            Visibility::Private => "private"@,
        }
    }

    /// The Java access modifier; `Default` has none.
    pub fn to_java(&self) -> (text: &'static str)
        ensures
            text@ == self.keyword(),
    {
        match self {
            Visibility::Default => "",
            Visibility::Public => "public",
            Visibility::Protected => "protected",
            Visibility::Private => "private",
        }
    }
}

/// A reference to a type, by name.
#[derive(Debug, PartialEq, Eq)]
pub enum Type {
    Other(String),
}

/// What a [`Type`] stands for.
pub ghost enum TypeView {
    Other(Seq<char>),
}

impl TypeView {
    /// The type as Java writes it.
    pub open spec fn text(self) -> Seq<char> {
        match self {
            TypeView::Other(s) => s,
        }
    }
}

impl View for Type {
    type V = TypeView;

    open spec fn view(&self) -> TypeView {
        match self {
            Type::Other(s) => TypeView::Other(s@),
        }
    }
}

impl Clone for Type {
    fn clone(&self) -> (r: Self)
        ensures
            r@ == self@,
    {
        match self {
            Type::Other(s) => Type::Other(s.clone()),
        }
    }
}

impl Type {
    /// The type as Java writes it.
    pub fn to_java(&self) -> (text: &str)
        ensures
            text@ == self@.text(),
    {
        match self {
            Type::Other(s) => s.as_str(),
        }
    }
}

/// A field of a class, or a parameter of a method.
#[derive(Debug, PartialEq, Eq)]
pub struct Attribute {
    pub view: Visibility,
    pub name: String,
    pub vartype: Type,
    pub is_final: bool,
}

/// What an [`Attribute`] stands for.
pub ghost struct AttributeView {
    pub view: Visibility,
    pub name: Seq<char>,
    pub vartype: TypeView,
    pub is_final: bool,
}

impl View for Attribute {
    type V = AttributeView;

    open spec fn view(&self) -> AttributeView {
        AttributeView {
            view: self.view,
            name: self.name@,
            vartype: self.vartype@,
            is_final: self.is_final,
        }
    }
}

impl Clone for Attribute {
    fn clone(&self) -> (r: Self)
        ensures
            r@ == self@,
    {
        Attribute {
            view: self.view,
            name: self.name.clone(),
            vartype: self.vartype.clone(),
            is_final: self.is_final,
        }
    }
}

/// The views of the attributes of `s`, in order.
pub open spec fn attributes_view(s: Seq<Attribute>) -> Seq<AttributeView> {
    s.map_values(|a: Attribute| a@)
}

/// Appends `a` to `v`.
pub fn push_attribute(v: &mut Vec<Attribute>, a: Attribute)
    ensures
        final(v)@ == old(v)@.push(a),
        attributes_view(final(v)@) == attributes_view(old(v)@).push(a@),
{
    v.push(a);
    assert(attributes_view(v@) =~= attributes_view(old(v)@).push(a@));
}

/// Copies a list of attributes.
pub fn clone_attributes(v: &Vec<Attribute>) -> (r: Vec<Attribute>)
    ensures
        attributes_view(r@) == attributes_view(v@),
{
    let mut r: Vec<Attribute> = Vec::new();
    let mut i: usize = 0;
    assert(attributes_view(r@) =~= attributes_view(v@.take(0)));
    while i < v.len()
        invariant
            i <= v.len(),
            attributes_view(r@) == attributes_view(v@.take(i as int)),
        decreases v.len() - i,
    {
        push_attribute(&mut r, v[i].clone());
        assert(attributes_view(v@.take(i + 1)) =~= attributes_view(v@.take(i as int)).push(
            v@[i as int]@,
        ));
        i += 1;
    }
    assert(v@.take(v@.len() as int) =~= v@);
    r
}

impl AttributeView {
    /// The attribute as a parameter of a Java method.
    pub open spec fn parameter_text(self) -> Seq<char> {
        (if self.is_final {
            "final "@
        } else {
            Seq::empty()
        }) + self.vartype.text() + " "@ + self.name
    }

    /// The attribute as a field declaration of a Java class.
    pub open spec fn attribute_text(self) -> Seq<char> {
        (if self.is_final {
            "final "@
        } else {
            Seq::empty()
        }) + self.view.keyword() + " "@ + self.vartype.text() + " "@ + self.name + ";"@
    }
}

impl Attribute {
    pub fn new(view: Visibility, name: String, vartype: Type, is_final: bool) -> (r: Self)
        ensures
            r == (Attribute { view, name, vartype, is_final }),
    {
        Attribute { view, name, vartype, is_final }
    }

    /// Writes the attribute as a parameter of a Java method.
    pub fn to_java_as_parameter(&self) -> (text: String)
        ensures
            text@ == self@.parameter_text(),
    {
        let mut text = String::new();
        if self.is_final {
            text.append("final ");
        }
        text.append(self.vartype.to_java());
        text.append(" ");
        text.append(self.name.as_str());
        assert(text@ =~= self@.parameter_text());
        text
    }

    /// Writes the attribute as a field declaration of a Java class.
    pub fn to_java_as_attribute(&self) -> (text: String)
        ensures
            text@ == self@.attribute_text(),
    {
        let mut text = String::new();
        if self.is_final {
            text.append("final ");
        }
        text.append(self.view.to_java());
        text.append(" ");
        text.append(self.vartype.to_java());
        text.append(" ");
        text.append(self.name.as_str());
        text.append(";");
        assert(text@ =~= self@.attribute_text());
        text
    }
}

/// The parameters `ps` as Java writes them between the brackets of a method.
pub open spec fn parameters_text(ps: Seq<AttributeView>) -> Seq<char>
    decreases ps.len(),
{
    if ps.len() == 0 {
        Seq::empty()
    } else if ps.len() == 1 {
        ps[0].parameter_text()
    } else {
        parameters_text(ps.drop_last()) + ", "@ + ps.last().parameter_text()
    }
}

/// The names of `ps`, separated by a comma and a blank.
pub open spec fn names_text(ps: Seq<AttributeView>) -> Seq<char>
    decreases ps.len(),
{
    if ps.len() == 0 {
        Seq::empty()
    } else if ps.len() == 1 {
        ps[0].name
    } else {
        names_text(ps.drop_last()) + ", "@ + ps.last().name
    }
}

/// One indented field declaration per attribute, each on a line of its own.
pub open spec fn fields_text(ps: Seq<AttributeView>) -> Seq<char>
    decreases ps.len(),
{
    if ps.len() == 0 {
        Seq::empty()
    } else {
        fields_text(ps.drop_last()) + "    "@ + ps.last().attribute_text() + "\n"@
    }
}

/// One assignment of a constructor's parameter to the field of the same name
/// per attribute, each on a line of its own.
pub open spec fn assignments_text(ps: Seq<AttributeView>) -> Seq<char>
    decreases ps.len(),
{
    if ps.len() == 0 {
        Seq::empty()
    } else {
        assignments_text(ps.drop_last()) + "        this."@ + ps.last().name + " = "@
            + ps.last().name + ";\n"@
    }
}

/// A method of a class.
#[derive(Debug, PartialEq, Eq)]
pub struct Function {
    pub name: String,
    pub view: Visibility,
    pub returntype: Type,
    pub parameters: Vec<Attribute>,
    pub is_abstract: bool,
    pub is_static: bool,
}

/// What a [`Function`] stands for.
pub ghost struct FunctionView {
    pub name: Seq<char>,
    pub view: Visibility,
    pub returntype: TypeView,
    pub parameters: Seq<AttributeView>,
    pub is_abstract: bool,
    pub is_static: bool,
}

impl View for Function {
    type V = FunctionView;

    open spec fn view(&self) -> FunctionView {
        FunctionView {
            name: self.name@,
            view: self.view,
            returntype: self.returntype@,
            parameters: attributes_view(self.parameters@),
            is_abstract: self.is_abstract,
            is_static: self.is_static,
        }
    }
}

impl Clone for Function {
    fn clone(&self) -> (r: Self)
        ensures
            r@ == self@,
    {
        Function {
            name: self.name.clone(),
            view: self.view,
            returntype: self.returntype.clone(),
            parameters: clone_attributes(&self.parameters),
            is_abstract: self.is_abstract,
            is_static: self.is_static,
        }
    }
}

/// The views of the methods of `s`, in order.
pub open spec fn functions_view(s: Seq<Function>) -> Seq<FunctionView> {
    s.map_values(|f: Function| f@)
}

/// Appends `f` to `v`.
pub fn push_function(v: &mut Vec<Function>, f: Function)
    ensures
        final(v)@ == old(v)@.push(f),
        functions_view(final(v)@) == functions_view(old(v)@).push(f@),
{
    v.push(f);
    assert(functions_view(v@) =~= functions_view(old(v)@).push(f@));
}

/// Copies a list of methods.
pub fn clone_functions(v: &Vec<Function>) -> (r: Vec<Function>)
    ensures
        functions_view(r@) == functions_view(v@),
{
    let mut r: Vec<Function> = Vec::new();
    let mut i: usize = 0;
    assert(functions_view(r@) =~= functions_view(v@.take(0)));
    while i < v.len()
        invariant
            i <= v.len(),
            functions_view(r@) == functions_view(v@.take(i as int)),
        decreases v.len() - i,
    {
        push_function(&mut r, v[i].clone());
        assert(functions_view(v@.take(i + 1)) =~= functions_view(v@.take(i as int)).push(
            v@[i as int]@,
        ));
        i += 1;
    }
    assert(v@.take(v@.len() as int) =~= v@);
    r
}

impl FunctionView {
    /// The method's Java text up to and including its parameters.
    pub open spec fn head_text(self) -> Seq<char> {
        self.view.keyword() + " "@ + (if self.is_abstract {
            "abstract "@
        } else {
            Seq::empty()
        }) + (if self.is_static {
            "static "@
        } else {
            Seq::empty()
        }) + self.returntype.text() + " "@ + self.name + "("@ + parameters_text(self.parameters)
    }

    /// The method as Java text: a declaration if it is abstract, else a
    /// definition with an empty body.
    pub open spec fn text(self) -> Seq<char> {
        self.head_text() + (if self.is_abstract {
            ");"@
        } else {
            ") {\n    }"@
        })
    }
}

/// One indented method per entry, each followed by a line break.
pub open spec fn methods_text(fs: Seq<FunctionView>) -> Seq<char>
    decreases fs.len(),
{
    if fs.len() == 0 {
        Seq::empty()
    } else {
        methods_text(fs.drop_last()) + "    "@ + fs.last().text() + "\n"@
    }
}

/// Writes the parameters as they stand between the brackets of a method.
fn parameters_java(ps: &Vec<Attribute>) -> (text: String)
    ensures
        text@ == parameters_text(attributes_view(ps@)),
{
    let ghost all = attributes_view(ps@);
    let mut text = String::new();
    let mut i: usize = 0;
    assert(all.take(0) =~= Seq::empty());
    while i < ps.len()
        invariant
            i <= ps.len(),
            all == attributes_view(ps@),
            text@ == parameters_text(all.take(i as int)),
        decreases ps.len() - i,
    {
        if i > 0 {
            text.append(", ");
        }
        let one = ps[i].to_java_as_parameter();
        text.append(one.as_str());
        proof {
            assert(all.take(i + 1).drop_last() =~= all.take(i as int));
            assert(all.take(i + 1).last() == ps@[i as int]@);
            if i == 0 {
                assert(text@ =~= ps@[0]@.parameter_text());
            }
        }
        i += 1;
    }
    assert(all.take(all.len() as int) =~= all);
    text
}

/// Writes the names of the parameters, separated by a comma and a blank.
fn names_java(ps: &Vec<Attribute>) -> (text: String)
    ensures
        text@ == names_text(attributes_view(ps@)),
{
    let ghost all = attributes_view(ps@);
    let mut text = String::new();
    let mut i: usize = 0;
    assert(all.take(0) =~= Seq::empty());
    while i < ps.len()
        invariant
            i <= ps.len(),
            all == attributes_view(ps@),
            text@ == names_text(all.take(i as int)),
        decreases ps.len() - i,
    {
        if i > 0 {
            text.append(", ");
        }
        text.append(ps[i].name.as_str());
        proof {
            assert(all.take(i + 1).drop_last() =~= all.take(i as int));
            assert(all.take(i + 1).last() == ps@[i as int]@);
            if i == 0 {
                assert(text@ =~= ps@[0]@.name);
            }
        }
        i += 1;
    }
    assert(all.take(all.len() as int) =~= all);
    text
}

/// Writes one field declaration per attribute.
fn fields_java(ps: &Vec<Attribute>) -> (text: String)
    ensures
        text@ == fields_text(attributes_view(ps@)),
{
    let ghost all = attributes_view(ps@);
    let mut text = String::new();
    let mut i: usize = 0;
    assert(all.take(0) =~= Seq::empty());
    while i < ps.len()
        invariant
            i <= ps.len(),
            all == attributes_view(ps@),
            text@ == fields_text(all.take(i as int)),
        decreases ps.len() - i,
    {
        text.append("    ");
        let one = ps[i].to_java_as_attribute();
        text.append(one.as_str());
        text.append("\n");
        proof {
            assert(all.take(i + 1).drop_last() =~= all.take(i as int));
            assert(all.take(i + 1).last() == ps@[i as int]@);
        }
        i += 1;
    }
    assert(all.take(all.len() as int) =~= all);
    text
}

/// Writes one assignment per attribute.
fn assignments_java(ps: &Vec<Attribute>) -> (text: String)
    ensures
        text@ == assignments_text(attributes_view(ps@)),
{
    let ghost all = attributes_view(ps@);
    let mut text = String::new();
    let mut i: usize = 0;
    assert(all.take(0) =~= Seq::empty());
    while i < ps.len()
        invariant
            i <= ps.len(),
            all == attributes_view(ps@),
            text@ == assignments_text(all.take(i as int)),
        decreases ps.len() - i,
    {
        text.append("        this.");
        text.append(ps[i].name.as_str());
        text.append(" = ");
        text.append(ps[i].name.as_str());
        text.append(";\n");
        proof {
            assert(all.take(i + 1).drop_last() =~= all.take(i as int));
            assert(all.take(i + 1).last() == ps@[i as int]@);
        }
        i += 1;
    }
    assert(all.take(all.len() as int) =~= all);
    text
}

/// Writes one method per entry.
fn methods_java(fs: &Vec<Function>) -> (text: String)
    ensures
        text@ == methods_text(functions_view(fs@)),
{
    let ghost all = functions_view(fs@);
    let mut text = String::new();
    let mut i: usize = 0;
    assert(all.take(0) =~= Seq::empty());
    while i < fs.len()
        invariant
            i <= fs.len(),
            all == functions_view(fs@),
            text@ == methods_text(all.take(i as int)),
        decreases fs.len() - i,
    {
        text.append("    ");
        let one = fs[i].to_java();
        text.append(one.as_str());
        text.append("\n");
        proof {
            assert(all.take(i + 1).drop_last() =~= all.take(i as int));
            assert(all.take(i + 1).last() == fs@[i as int]@);
        }
        i += 1;
    }
    assert(all.take(all.len() as int) =~= all);
    text
}

impl Function {
    pub fn new(
        name: String,
        view: Visibility,
        returntype: Type,
        parameters: Vec<Attribute>,
        is_abstract: bool,
        is_static: bool,
    ) -> (r: Self)
        ensures
            r == (Function { name, view, returntype, parameters, is_abstract, is_static }),
    {
        Function { name, view, returntype, parameters, is_abstract, is_static }
    }

    /// Writes the method up to and including its parameters.
    fn head_java(&self) -> (text: String)
        ensures
            text@ == self@.head_text(),
    {
        let mut text = String::new();
        text.append(self.view.to_java());
        text.append(" ");
        if self.is_abstract {
            text.append("abstract ");
        }
        if self.is_static {
            text.append("static ");
        }
        text.append(self.returntype.to_java());
        text.append(" ");
        text.append(self.name.as_str());
        text.append("(");
        let ps = parameters_java(&self.parameters);
        text.append(ps.as_str());
        assert(text@ =~= self@.head_text());
        text
    }

    /// Writes the method as Java: a declaration if it is abstract, else a
    /// definition with an empty body.
    pub fn to_java(&self) -> (text: String)
        ensures
            text@ == self@.text(),
    {
        let mut text = self.head_java();
        if self.is_abstract {
            text.append(");");
        } else {
            text.append(") {\n    }");
        }
        text
    }
}

/// One class of a diagram. Its parent, if it has one, is held as a copy of the
/// parent's record.
#[derive(Debug, PartialEq, Eq)]
pub struct Class {
    pub name: String,
    pub attributes: Vec<Attribute>,
    pub methods: Vec<Function>,
    pub view: Visibility,
    pub is_abstract: bool,
    pub inherits: Option<Box<Class>>,
}

/// What a [`Class`] stands for.
pub ghost struct ClassView {
    pub name: Seq<char>,
    pub attributes: Seq<AttributeView>,
    pub methods: Seq<FunctionView>,
    pub view: Visibility,
    pub is_abstract: bool,
    pub inherits: Option<Box<ClassView>>,
}

impl View for Class {
    type V = ClassView;

    open spec fn view(&self) -> ClassView
        decreases self,
    {
        ClassView {
            name: self.name@,
            attributes: attributes_view(self.attributes@),
            methods: functions_view(self.methods@),
            view: self.view,
            is_abstract: self.is_abstract,
            inherits: match self.inherits {
                Some(parent) => Some(Box::new((*parent).view())),
                None => None,
            },
        }
    }
}

impl Clone for Class {
    fn clone(&self) -> (r: Self)
        ensures
            r@ == self@,
        decreases self,
    {
        let inherits = match &self.inherits {
            Some(parent) => Some(Box::new((**parent).clone())),
            None => None,
        };
        Class {
            name: self.name.clone(),
            attributes: clone_attributes(&self.attributes),
            methods: clone_functions(&self.methods),
            view: self.view,
            is_abstract: self.is_abstract,
            inherits,
        }
    }
}

/// The views of the classes of `s`, in order.
pub open spec fn classes_view(s: Seq<Class>) -> Seq<ClassView> {
    s.map_values(|c: Class| c@)
}

impl ClassView {
    /// The parameters of the constructor: the parent's own attributes, then
    /// the class's own attributes. What the parent itself inherits does not
    /// count.
    pub open spec fn constructor_parameters(self) -> Seq<AttributeView> {
        match self.inherits {
            Some(parent) => parent.attributes + self.attributes,
            None => self.attributes,
        }
    }

    /// The constructor as a method: it has the class's name and visibility, no
    /// return type, and is neither abstract nor static.
    pub open spec fn constructor(self) -> FunctionView {
        FunctionView {
            name: self.name,
            view: self.view,
            returntype: TypeView::Other(""@),
            parameters: self.constructor_parameters(),
            is_abstract: false,
            is_static: false,
        }
    }

    /// The clause that names the parent, if there is one.
    pub open spec fn extends_text(self) -> Seq<char> {
        match self.inherits {
            Some(parent) => "extends "@ + parent.name,
            None => Seq::empty(),
        }
    }

    /// The call of the parent's constructor, if there is a parent: it hands
    /// on the parameters that are named after the parent's own attributes.
    pub open spec fn super_text(self) -> Seq<char> {
        match self.inherits {
            Some(parent) => "        super("@ + names_text(parent.attributes) + ");"@,
            None => Seq::empty(),
        }
    }

    /// The line that opens the class.
    pub open spec fn header_text(self) -> Seq<char> {
        self.view.keyword() + " "@ + (if self.is_abstract {
            "abstract "@
        } else {
            Seq::empty()
        }) + "class "@ + self.name + " "@ + self.extends_text() + "{\n"@
    }

    /// The constructor: it hands the parent's parameters on to the parent's
    /// constructor and stores the class's own in the fields.
    pub open spec fn constructor_text(self) -> Seq<char> {
        "\n    "@ + self.constructor().head_text() + ") {\n    \n"@ + self.super_text() + "\n"@
            + assignments_text(self.attributes) + "    }\n\n"@
    }

    /// The class as a Java source file: the header, the fields, the
    /// constructor and the methods.
    pub open spec fn text(self) -> Seq<char> {
        self.header_text() + fields_text(self.attributes) + self.constructor_text()
            + methods_text(self.methods) + "}\n"@
    }
}

impl Class {
    /// The view of a class has the class's name.
    pub proof fn lemma_view_name(self)
        ensures
            self@.name == self.name@,
    {
    }

    /// The view of a class has the views of the class's attributes.
    pub proof fn lemma_view_attributes(self)
        ensures
            self@.attributes == attributes_view(self.attributes@),
    {
    }

    pub fn new(
        name: String,
        attributes: Vec<Attribute>,
        methods: Vec<Function>,
        view: Visibility,
        is_abstract: bool,
        inherits: Option<Box<Class>>,
    ) -> (r: Self)
        ensures
            r == (Class { name, attributes, methods, view, is_abstract, inherits }),
    {
        Class { name, attributes, methods, view, is_abstract, inherits }
    }

    /// A class without members and without a parent.
    pub fn build(name: String, view: Visibility, is_abstract: bool) -> (r: Self)
        ensures
            r@ == (ClassView {
                name: name@,
                attributes: Seq::empty(),
                methods: Seq::empty(),
                view,
                is_abstract,
                inherits: None,
            }),
    {
        let r = Class {
            name,
            attributes: Vec::new(),
            methods: Vec::new(),
            view,
            is_abstract,
            inherits: None,
        };
        assert(r@.attributes =~= Seq::empty());
        assert(r@.methods =~= Seq::empty());
        r
    }

    /// The class with `attribute` added after its attributes.
    pub fn with_attribute(self, attribute: Attribute) -> (r: Self)
        ensures
            r@ == (ClassView { attributes: self@.attributes.push(attribute@), ..self@ }),
    {
        let mut r = self;
        push_attribute(&mut r.attributes, attribute);
        r
    }

    /// The class with `method` added after its methods.
    pub fn with_method(self, method: Function) -> (r: Self)
        ensures
            r@ == (ClassView { methods: self@.methods.push(method@), ..self@ }),
    {
        let mut r = self;
        push_function(&mut r.methods, method);
        r
    }

    /// The class with `class` as its parent.
    pub fn inherits(self, class: Class) -> (r: Self)
        ensures
            r@ == (ClassView { inherits: Some(Box::new(class@)), ..self@ }),
    {
        let mut r = self;
        r.inherits = Some(Box::new(class));
        r
    }

    /// The class, abstract or not as `is_abstract` says.
    pub fn with_abstract(self, is_abstract: bool) -> (r: Self)
        ensures
            r@ == (ClassView { is_abstract, ..self@ }),
    {
        let mut r = self;
        r.is_abstract = is_abstract;
        r
    }

    /// Makes `master` the parent, in place of the one there was.
    pub fn set_inherits(&mut self, master: Class)
        ensures
            final(self)@ == (ClassView { inherits: Some(Box::new(master@)), ..old(self)@ }),
    {
        self.inherits = Some(Box::new(master));
    }

    /// A copy of the parent's record, if there is a parent.
    pub fn get_inherits(&self) -> (r: Option<Box<Class>>)
        ensures
            r is Some == self@.inherits is Some,
            r is Some ==> (*r->0)@ == *self@.inherits->0,
    {
        match &self.inherits {
            Some(parent) => Some(Box::new((**parent).clone())),
            None => None,
        }
    }

    /// The parameters of the constructor: the parent's own attributes, then
    /// the class's own attributes.
    pub fn constructor_parameters(&self) -> (r: Vec<Attribute>)
        ensures
            attributes_view(r@) == self@.constructor_parameters(),
    {
        let mut r: Vec<Attribute> = match &self.inherits {
            Some(parent) => {
                proof {
                    (**parent).lemma_view_attributes();
                }
                clone_attributes(&parent.attributes)
            },
            None => Vec::new(),
        };
        let ghost inherited = attributes_view(r@);
        assert(self.inherits is None ==> inherited =~= Seq::empty());
        let mut i: usize = 0;
        assert(self.attributes@.take(0) =~= Seq::empty());
        assert(attributes_view(r@) =~= inherited + attributes_view(self.attributes@.take(0)));
        while i < self.attributes.len()
            invariant
                i <= self.attributes.len(),
                attributes_view(r@) == inherited + attributes_view(self.attributes@.take(i as int)),
            decreases self.attributes.len() - i,
        {
            push_attribute(&mut r, self.attributes[i].clone());
            assert(attributes_view(self.attributes@.take(i + 1)) =~= attributes_view(
                self.attributes@.take(i as int),
            ).push(self.attributes@[i as int]@));
            assert(attributes_view(r@) =~= inherited + attributes_view(
                self.attributes@.take(i + 1),
            ));
            i += 1;
        }
        assert(self.attributes@.take(self.attributes@.len() as int) =~= self.attributes@);
        assert(attributes_view(r@) =~= self@.constructor_parameters());
        r
    }

    /// The constructor as a method: it has the class's name and visibility, no
    /// return type, and takes the parent's own attributes before the class's
    /// own attributes.
    pub fn get_constructor_func(&self) -> (r: Function)
        ensures
            r@ == self@.constructor(),
    {
        Function::new(
            self.name.clone(),
            self.view,
            Type::Other(String::from_str("")),
            self.constructor_parameters(),
            false,
            false,
        )
    }

    /// Writes the line that opens the class.
    fn header_java(&self) -> (text: String)
        ensures
            text@ == self@.header_text(),
    {
        let mut text = String::new();
        text.append(self.view.to_java());
        text.append(" ");
        if self.is_abstract {
            text.append("abstract ");
        }
        text.append("class ");
        text.append(self.name.as_str());
        text.append(" ");
        let parent = self.extends_java();
        text.append(parent.as_str());
        text.append("{\n");
        assert(text@ =~= self@.header_text());
        text
    }

    /// Writes the clause that names the parent, if there is one.
    fn extends_java(&self) -> (text: String)
        ensures
            text@ == self@.extends_text(),
    {
        let mut text = String::new();
        match &self.inherits {
            Some(parent) => {
                text.append("extends ");
                text.append(parent.name.as_str());
                proof {
                    (**parent).lemma_view_name();
                }
                assert(text@ =~= self@.extends_text());
            },
            None => {},
        }
        text
    }

    /// Writes the call of the parent's constructor, if there is a parent.
    fn super_java(&self) -> (text: String)
        ensures
            text@ == self@.super_text(),
    {
        let mut text = String::new();
        match &self.inherits {
            Some(parent) => {
                text.append("        super(");
                proof {
                    (**parent).lemma_view_attributes();
                }
                let names = names_java(&parent.attributes);
                text.append(names.as_str());
                text.append(");");
                assert(text@ =~= self@.super_text());
            },
            None => {},
        }
        text
    }

    /// Writes the constructor.
    fn constructor_java(&self) -> (text: String)
        ensures
            text@ == self@.constructor_text(),
    {
        let mut text = String::from_str("\n    ");
        let head = self.get_constructor_func().head_java();
        text.append(head.as_str());
        text.append(") {\n    \n");
        let call = self.super_java();
        text.append(call.as_str());
        text.append("\n");
        let assignments = assignments_java(&self.attributes);
        text.append(assignments.as_str());
        text.append("    }\n\n");
        text
    }

    /// Writes the class as a Java source file.
    pub fn to_java(&self) -> (text: String)
        ensures
            text@ == self@.text(),
    {
        let mut text = self.header_java();
        let fields = fields_java(&self.attributes);
        text.append(fields.as_str());
        let constructor = self.constructor_java();
        text.append(constructor.as_str());
        let methods = methods_java(&self.methods);
        text.append(methods.as_str());
        text.append("}\n");
        text
    }
}

} // verus!
