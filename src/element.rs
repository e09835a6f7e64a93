use vstd::prelude::*;

verus! {

/// One attribute of an element: its local (unprefixed) name and raw text.
pub struct Attribute {
    pub name: String,
    pub value: String,
}

/// What the extraction reads of one element of a parsed document: its
/// namespace prefix, its local tag name and its unprefixed attributes.
pub struct ElementView {
    pub prefix: Option<String>,
    pub local_name: String,
    pub attributes: Vec<Attribute>,
}

/// The value of the first attribute in `attrs`, from position `i` on, named `name`.
pub open spec fn attribute_from(attrs: Seq<Attribute>, name: Seq<char>, i: int) -> Option<
    Seq<char>,
>
    decreases attrs.len() - i,
{
    if i < 0 || i >= attrs.len() {
        None
    } else if attrs[i].name@ == name {
        Some(attrs[i].value@)
    } else {
        attribute_from(attrs, name, i + 1)
    }
}

/// The value of the element's attribute `name`, where it has one.
pub open spec fn attribute_value(e: ElementView, name: Seq<char>) -> Option<Seq<char>> {
    attribute_from(e.attributes@, name, 0)
}

impl ElementView {
    /// An element with the given local name, no prefix and no attributes.
    pub fn new(local_name: &str) -> (r: ElementView)
        ensures
            r.prefix is None,
            r.local_name@ == local_name@,
            r.attributes@.len() == 0,
    {
        ElementView { prefix: None, local_name: local_name.to_string(), attributes: Vec::new() }
    }

    /// Adds the attribute `name="value"` after those already there.
    pub fn add_attribute(&mut self, name: &str, value: &str)
        ensures
            final(self).prefix == old(self).prefix,
            final(self).local_name == old(self).local_name,
            final(self).attributes@.len() == old(self).attributes@.len() + 1,
            forall|i: int|
                0 <= i < old(self).attributes@.len() ==> #[trigger] final(self).attributes@[i]
                    == old(self).attributes@[i],
            final(self).attributes@.last().name@ == name@,
            final(self).attributes@.last().value@ == value@,
    {
        self.attributes.push(Attribute { name: name.to_string(), value: value.to_string() });
    }

    /// The value of the attribute named `name`, where the element has one.
    pub fn get_attribute(&self, name: &str) -> (r: Option<&String>)
        ensures
            r matches Some(v) ==> attribute_value(*self, name@) == Some(v@),
            r is None ==> attribute_value(*self, name@) is None,
    {
        let key = name.to_string();
        let n = self.attributes.len();
        let mut i: usize = 0;
        while i < n
            invariant
                n == self.attributes@.len(),
                key@ == name@,
                i <= n,
                attribute_value(*self, name@) == attribute_from(self.attributes@, name@, i as int),
            decreases n - i,
        {
            let a = &self.attributes[i];
            if a.name == key {
                return Some(&a.value);
            }
            i = i + 1;
        }
        None
    }
}

} // verus!
