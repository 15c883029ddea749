use puml2java::model::{Attribute, Class, Function, Type, Visibility};

fn attribute(view: Visibility, name: &str, vartype: &str) -> Attribute {
    Attribute::new(view, name.to_string(), Type::Other(vartype.to_string()), false)
}

fn animal() -> Class {
    Class::build("Animal".to_string(), Visibility::Public, false)
        .with_attribute(attribute(Visibility::Public, "name", "String"))
        .with_method(Function::new(
            "speak".to_string(),
            Visibility::Public,
            Type::Other("void".to_string()),
            Vec::new(),
            false,
            false,
        ))
}

fn dog_without_parent() -> Class {
    Class::build("Dog".to_string(), Visibility::Public, false)
        .with_attribute(attribute(Visibility::Public, "breed", "String"))
}

fn dog() -> Class {
    Class::build("Dog".to_string(), Visibility::Public, false)
        .with_attribute(attribute(Visibility::Public, "breed", "String"))
        .inherits(animal())
}

#[test]
fn it_works() {
    let parent = Class::build("Base".to_string(), Visibility::Public, false)
        .with_attribute(attribute(Visibility::Private, "a", "int"))
        .with_attribute(attribute(Visibility::Private, "b", "int"));
    let child = Class::build("Derived".to_string(), Visibility::Public, false)
        .with_attribute(attribute(Visibility::Private, "c", "int"))
        .with_attribute(attribute(Visibility::Private, "d", "int"))
        .inherits(parent);
    let result = child.get_constructor_func().parameters.len();
    assert_eq!(result, 4);
}

#[test]
fn visibility_keywords() {
    assert_eq!(Visibility::Default.to_java(), "");
    assert_eq!(Visibility::Public.to_java(), "public");
    assert_eq!(Visibility::Protected.to_java(), "protected");
    assert_eq!(Visibility::Private.to_java(), "private");
}

#[test]
fn type_renders_its_name() {
    assert_eq!(Type::Other("List".to_string()).to_java(), "List");
}

#[test]
fn new_keeps_every_field() {
    let a = Attribute::new(
        Visibility::Protected,
        "x".to_string(),
        Type::Other("int".to_string()),
        true,
    );
    assert_eq!(a.view, Visibility::Protected);
    assert_eq!(a.name, "x");
    assert_eq!(a.vartype, Type::Other("int".to_string()));
    assert!(a.is_final);
    let f = Function::new(
        "f".to_string(),
        Visibility::Private,
        Type::Other("int".to_string()),
        vec![a.clone()],
        true,
        false,
    );
    assert_eq!(f.name, "f");
    assert_eq!(f.view, Visibility::Private);
    assert_eq!(f.parameters, vec![a.clone()]);
    assert!(f.is_abstract);
    assert!(!f.is_static);
    let c = Class::new(
        "C".to_string(),
        vec![a.clone()],
        vec![f.clone()],
        Visibility::Default,
        true,
        None,
    );
    assert_eq!(c.name, "C");
    assert_eq!(c.attributes, vec![a]);
    assert_eq!(c.methods, vec![f]);
    assert_eq!(c.view, Visibility::Default);
    assert!(c.is_abstract);
    assert_eq!(c.inherits, None);
}

#[test]
fn build_makes_an_empty_class() {
    let c = Class::build("C".to_string(), Visibility::Public, true);
    assert_eq!(
        c,
        Class::new("C".to_string(), Vec::new(), Vec::new(), Visibility::Public, true, None)
    );
}

#[test]
fn builders_add_in_order() {
    let c = Class::build("C".to_string(), Visibility::Public, false)
        .with_attribute(attribute(Visibility::Public, "a", "int"))
        .with_attribute(attribute(Visibility::Private, "b", "long"))
        .with_abstract(true);
    assert_eq!(c.attributes.len(), 2);
    assert_eq!(c.attributes[0].name, "a");
    assert_eq!(c.attributes[1].name, "b");
    assert!(c.is_abstract);
    assert!(!c.with_abstract(false).is_abstract);
}

#[test]
fn set_and_get_inherits() {
    let mut c = Class::build("Dog".to_string(), Visibility::Public, false);
    assert_eq!(c.get_inherits(), None);
    c.set_inherits(animal());
    assert_eq!(c.get_inherits(), Some(Box::new(animal())));
    c.set_inherits(Class::build("Pet".to_string(), Visibility::Public, false));
    assert_eq!(c.get_inherits().unwrap().name, "Pet");
}

#[test]
fn clone_is_equal() {
    assert_eq!(dog().clone(), dog());
}

#[test]
fn attribute_as_parameter_and_as_field() {
    let a = attribute(Visibility::Private, "count", "int");
    assert_eq!(a.to_java_as_parameter(), "int count");
    assert_eq!(a.to_java_as_attribute(), "private int count;");
    let f = Attribute::new(
        Visibility::Public,
        "id".to_string(),
        Type::Other("String".to_string()),
        true,
    );
    assert_eq!(f.to_java_as_parameter(), "final String id");
    assert_eq!(f.to_java_as_attribute(), "final public String id;");
}

#[test]
fn function_to_java_with_body() {
    let f = Function::new(
        "add".to_string(),
        Visibility::Public,
        Type::Other("int".to_string()),
        vec![
            attribute(Visibility::Default, "a", "int"),
            attribute(Visibility::Default, "b", "int"),
        ],
        false,
        true,
    );
    assert_eq!(f.to_java(), "public static int add(int a, int b) {\n    }");
}

#[test]
fn function_to_java_abstract() {
    let f = Function::new(
        "area".to_string(),
        Visibility::Protected,
        Type::Other("double".to_string()),
        Vec::new(),
        true,
        false,
    );
    assert_eq!(f.to_java(), "protected abstract double area();");
}

#[test]
fn constructor_takes_parent_parameters_first() {
    let ctor = dog().get_constructor_func();
    assert_eq!(ctor.name, "Dog");
    assert_eq!(ctor.view, Visibility::Public);
    assert_eq!(ctor.returntype, Type::Other(String::new()));
    assert!(!ctor.is_abstract);
    assert!(!ctor.is_static);
    let names: Vec<&str> = ctor.parameters.iter().map(|p| p.name.as_str()).collect();
    assert_eq!(names, vec!["name", "breed"]);
}

#[test]
fn constructor_goes_one_level_up() {
    let puppy = Class::build("Puppy".to_string(), Visibility::Public, false)
        .with_attribute(attribute(Visibility::Private, "age", "int"))
        .inherits(dog());
    let names: Vec<String> =
        puppy.constructor_parameters().into_iter().map(|p| p.name).collect();
    assert_eq!(names, vec!["breed", "age"]);
    let ctor = puppy.get_constructor_func();
    assert_eq!(ctor.parameters.len(), 2);
    assert_eq!(ctor.to_java(), "public  Puppy(String breed, int age) {\n    }");
    let expected = "public class Puppy extends Dog{\n    private int age;\n\n    public  Puppy(String breed, int age) {\n    \n        super(breed);\n        this.age = age;\n    }\n\n}\n";
    assert_eq!(puppy.to_java(), expected);
}

#[test]
fn super_call_without_arguments() {
    let child = Class::build("Child".to_string(), Visibility::Public, false)
        .inherits(Class::build("Base".to_string(), Visibility::Public, false));
    let expected = "public class Child extends Base{\n\n    public  Child() {\n    \n        super();\n    }\n\n}\n";
    assert_eq!(child.to_java(), expected);
    assert!(!dog_without_parent().to_java().contains("super("));
}

#[test]
fn constructor_of_a_class_without_parent() {
    let ctor = animal().get_constructor_func();
    assert_eq!(ctor.parameters, vec![attribute(Visibility::Public, "name", "String")]);
    assert_eq!(ctor.to_java(), "public  Animal(String name) {\n    }");
}

#[test]
fn class_to_java_without_parent() {
    let expected = "public class Animal {\n    public String name;\n\n    public  Animal(String name) {\n    \n\n        this.name = name;\n    }\n\n    public void speak() {\n    }\n}\n";
    assert_eq!(animal().to_java(), expected);
}

#[test]
fn class_to_java_with_parent() {
    let expected = "public class Dog extends Animal{\n    public String breed;\n\n    public  Dog(String name, String breed) {\n    \n        super(name);\n        this.breed = breed;\n    }\n\n}\n";
    assert_eq!(dog().to_java(), expected);
}

#[test]
fn abstract_class_to_java() {
    let c = Class::build("Shape".to_string(), Visibility::Default, true);
    assert_eq!(c.to_java(), " abstract class Shape {\n\n      Shape() {\n    \n\n    }\n\n}\n");
}
