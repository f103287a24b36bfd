use vstd::prelude::*;

verus! {

/// Model of one allowlist entry: a tag name and the attribute names
/// permitted on elements with that tag.
#[verifier::ext_equal]
pub struct ElementRule {
    pub name: Seq<char>,
    pub attributes: Seq<Seq<char>>,
}

/// Model of a whole sanitization policy: the ordered allowlist and the
/// comment flag.
#[verifier::ext_equal]
pub struct PolicyModel {
    pub allowed: Seq<ElementRule>,
    pub remove_comments: bool,
}

/// One permitted element: its tag name and the attribute names allowed on
/// it.  Names are stored lowercase and compared verbatim against the
/// lowercase names the event stream carries.
pub struct AllowedElement {
    pub name: String,
    pub attributes: Vec<String>,
}

impl View for AllowedElement {
    type V = ElementRule;

    open spec fn view(&self) -> ElementRule {
        ElementRule {
            name: self.name@,
            attributes: self.attributes@.map_values(|a: String| a@),
        }
    }
}

/// The configuration of one sanitization run.
pub struct Settings {
    pub allowed: Vec<AllowedElement>,
    pub remove_comments: bool,
}

impl View for Settings {
    type V = PolicyModel;

    open spec fn view(&self) -> PolicyModel {
        PolicyModel {
            allowed: self.allowed@.map_values(|e: AllowedElement| e@),
            remove_comments: self.remove_comments,
        }
    }
}

/// The first rule of the allowlist whose name equals `name`, if any.
pub open spec fn lookup_rule(allowed: Seq<ElementRule>, name: Seq<char>) -> Option<ElementRule>
    decreases allowed.len(),
{
    if allowed.len() == 0 {
        None
    } else if allowed[0].name == name {
        Some(allowed[0])
    } else {
        lookup_rule(allowed.drop_first(), name)
    }
}

/// A first match at index `i` is what `lookup_rule` returns.
proof fn lemma_lookup_rule_at(allowed: Seq<ElementRule>, name: Seq<char>, i: int)
    requires
        0 <= i < allowed.len(),
        allowed[i].name == name,
        forall|j: int| 0 <= j < i ==> allowed[j].name != name,
    ensures
        lookup_rule(allowed, name) == Some(allowed[i]),
    decreases i,
{
    if i > 0 {
        lemma_lookup_rule_at(allowed.drop_first(), name, i - 1);
    }
}

/// Where no rule carries the name, `lookup_rule` finds nothing.
proof fn lemma_lookup_rule_absent(allowed: Seq<ElementRule>, name: Seq<char>)
    requires
        forall|j: int| 0 <= j < allowed.len() ==> allowed[j].name != name,
    ensures
        lookup_rule(allowed, name) is None,
    decreases allowed.len(),
{
    if allowed.len() > 0 {
        lemma_lookup_rule_absent(allowed.drop_first(), name);
    }
}

impl AllowedElement {
    /// Whether `attr` is among this element's permitted attribute names.
    pub fn is_attribute_allowed(&self, attr: &String) -> (r: bool)
        ensures
            r == self@.attributes.contains(attr@),
    {
        let mut i: usize = 0;
        while i < self.attributes.len()
            invariant
                i <= self.attributes.len(),
                forall|j: int| 0 <= j < i ==> self@.attributes[j] != attr@,
            decreases self.attributes.len() - i,
        {
            if self.attributes[i] == *attr {
                assert(self@.attributes[i as int] == attr@);
                return true;
            }
            i += 1;
        }
        assert(!self@.attributes.contains(attr@));
        false
    }
}

impl Settings {
    /// Index of the first allowlist entry for `name`, if the element is
    /// allowed at all.
    pub fn lookup(&self, name: &String) -> (r: Option<usize>)
        ensures
            match r {
                Some(i) => i < self.allowed.len() && lookup_rule(self@.allowed, name@)
                    == Some(self@.allowed[i as int]),
                None => lookup_rule(self@.allowed, name@) is None,
            },
    {
        let mut i: usize = 0;
        while i < self.allowed.len()
            invariant
                i <= self.allowed.len(),
                forall|j: int| 0 <= j < i ==> self@.allowed[j].name != name@,
            decreases self.allowed.len() - i,
        {
            if self.allowed[i].name == *name {
                proof {
                    lemma_lookup_rule_at(self@.allowed, name@, i as int);
                }
                return Some(i);
            }
            i += 1;
        }
        proof {
            lemma_lookup_rule_absent(self@.allowed, name@);
        }
        None
    }

    /// The configured comment flag.
    pub fn should_remove_comments(&self) -> (r: bool)
        ensures
            r == self@.remove_comments,
    {
        self.remove_comments
    }
}

/// A security-conscious default allowlist: structural, text-formatting,
/// link, list and image elements, with minimal attribute sets and no event
/// handlers; comments are removed.
pub open spec fn default_policy() -> PolicyModel {
    PolicyModel {
        allowed: seq![
            ElementRule { name: "div"@, attributes: seq![] },
            ElementRule { name: "b"@, attributes: seq![] },
            ElementRule { name: "strong"@, attributes: seq![] },
            ElementRule { name: "i"@, attributes: seq![] },
            ElementRule { name: "em"@, attributes: seq![] },
            ElementRule { name: "u"@, attributes: seq![] },
            ElementRule { name: "a"@, attributes: seq!["href"@, "title"@] },
            ElementRule { name: "ul"@, attributes: seq![] },
            ElementRule { name: "ol"@, attributes: seq![] },
            ElementRule { name: "li"@, attributes: seq![] },
            ElementRule { name: "p"@, attributes: seq!["style"@] },
            ElementRule { name: "br"@, attributes: seq![] },
            ElementRule { name: "span"@, attributes: seq!["style"@] },
            ElementRule {
                name: "img"@,
                attributes: seq!["width"@, "height"@, "alt"@, "src"@],
            },
        ],
        remove_comments: true,
    }
}

impl Default for Settings {
    /// The default policy, exactly as `default_policy` lists it.
    fn default() -> (r: Settings)
        ensures
            r@ == default_policy(),
    {
        let r = Settings {
            allowed: vec![
                AllowedElement { name: "div".to_owned(), attributes: vec![] },
                AllowedElement { name: "b".to_owned(), attributes: vec![] },
                AllowedElement { name: "strong".to_owned(), attributes: vec![] },
                AllowedElement { name: "i".to_owned(), attributes: vec![] },
                AllowedElement { name: "em".to_owned(), attributes: vec![] },
                AllowedElement { name: "u".to_owned(), attributes: vec![] },
                AllowedElement {
                    name: "a".to_owned(),
                    attributes: vec!["href".to_owned(), "title".to_owned()],
                },
                AllowedElement { name: "ul".to_owned(), attributes: vec![] },
                AllowedElement { name: "ol".to_owned(), attributes: vec![] },
                AllowedElement { name: "li".to_owned(), attributes: vec![] },
                AllowedElement {
                    name: "p".to_owned(),
                    attributes: vec!["style".to_owned()],
                },
                AllowedElement { name: "br".to_owned(), attributes: vec![] },
                AllowedElement {
                    name: "span".to_owned(),
                    attributes: vec!["style".to_owned()],
                },
                AllowedElement {
                    name: "img".to_owned(),
                    attributes: vec![
                        "width".to_owned(),
                        "height".to_owned(),
                        "alt".to_owned(),
                        "src".to_owned(),
                    ],
                },
            ],
            remove_comments: true,
        };
        proof {
            assert(r@.allowed =~~= default_policy().allowed);
            assert(r@ =~~= default_policy());
        }
        r
    }
}

} // verus!
