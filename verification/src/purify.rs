use vstd::prelude::*;
use crate::policy::ElementRule;
use crate::policy::PolicyModel;
use crate::policy::Settings;
use crate::policy::lookup_rule;

verus! {

// The external tokenizer's handles.  Both are opaque here: everything the
// engine reads or changes goes through the named results and the trusted
// wrappers below.

#[verifier::external_type_specification]
#[verifier::external_body]
pub struct ExElement<'r, 't>(lol_html::html_content::Element<'r, 't>);

#[verifier::external_type_specification]
#[verifier::external_body]
pub struct ExComment<'i>(lol_html::html_content::Comment<'i>);

/// The element's tag name, as the tokenizer reports it (lowercased).
pub uninterp spec fn elem_tag(el: lol_html::html_content::Element) -> Seq<char>;

/// The ordered attribute names of the element's start tag, as the
/// tokenizer reports them (lowercased).
pub uninterp spec fn elem_attr_names(el: lol_html::html_content::Element) -> Seq<Seq<char>>;

/// Whether the element's tag markers have been marked removed.
pub uninterp spec fn elem_removed(el: lol_html::html_content::Element) -> bool;

/// Whether the comment has been marked removed.
pub uninterp spec fn comment_removed(c: lol_html::html_content::Comment) -> bool;

/// No ASCII capital letter anywhere in the text.
pub open spec fn ascii_lowercase(s: Seq<char>) -> bool {
    forall|j: int| 0 <= j < s.len() ==> !('A' <= #[trigger] s[j] && s[j] <= 'Z')
}

/// `names` with its first occurrence of `name` taken out, if there is one.
pub open spec fn remove_first_named(names: Seq<Seq<char>>, name: Seq<char>) -> Seq<Seq<char>>
    decreases names.len(),
{
    if names.len() == 0 {
        names
    } else if names[0] == name {
        names.drop_first()
    } else {
        seq![names[0]] + remove_first_named(names.drop_first(), name)
    }
}

/// The names of `names` that the rule permits, in their original order.
pub open spec fn keep_named(rule: ElementRule, names: Seq<Seq<char>>) -> Seq<Seq<char>> {
    names.filter(|n: Seq<char>| rule.attributes.contains(n))
}

/// Relies on lol_html's `Element::tag_name`: the tag name of the element,
/// lowercased by the tokenizer.
#[verifier::external_body]
fn el_tag_name(el: &lol_html::html_content::Element) -> (r: String)
    ensures
        r@ == elem_tag(*el),
{
    el.tag_name()
}

/// Relies on lol_html's `Element::attributes` and `Attribute::name`: the
/// ordered attribute names of the start tag, each lowercased by the
/// tokenizer, so none holds an ASCII capital.
#[verifier::external_body]
fn el_attribute_names(el: &lol_html::html_content::Element) -> (r: Vec<String>)
    ensures
        r@.map_values(|s: String| s@) == elem_attr_names(*el),
        forall|i: int| 0 <= i < r@.len() ==> ascii_lowercase((#[trigger] r@[i])@),
{
    el.attributes().iter().map(|a| a.name()).collect()
}

/// Relies on lol_html's `Element::remove_attribute`: removes the first
/// attribute whose lowercase name equals the given (already lowercase)
/// name, if any; the tag name and the removed mark stay as they were.
#[verifier::external_body]
fn el_remove_attribute(el: &mut lol_html::html_content::Element, name: &String)
    requires
        ascii_lowercase(name@),
    ensures
        elem_attr_names(*final(el)) == remove_first_named(
            elem_attr_names(*old(el)),
            name@,
        ),
        elem_tag(*final(el)) == elem_tag(*old(el)),
        elem_removed(*final(el)) == elem_removed(*old(el)),
{
    el.remove_attribute(name)
}

/// Relies on lol_html's `Element::remove_and_keep_content`: marks the
/// element's tag markers removed while its inner content stays in the
/// stream.
#[verifier::external_body]
fn el_remove_and_keep_content(el: &mut lol_html::html_content::Element)
    ensures
        elem_removed(*final(el)),
{
    el.remove_and_keep_content()
}

/// Relies on lol_html's `Comment::remove`: marks the comment removed.
#[verifier::external_body]
fn co_remove(c: &mut lol_html::html_content::Comment)
    ensures
        comment_removed(*final(c)),
{
    c.remove()
}

/// `keep_named` over a prefix, extended by one name.
proof fn lemma_keep_named_take_step(rule: ElementRule, names: Seq<Seq<char>>, i: int)
    requires
        0 <= i < names.len(),
    ensures
        keep_named(rule, names.take(i + 1)) == if rule.attributes.contains(names[i]) {
            keep_named(rule, names.take(i)).push(names[i])
        } else {
            keep_named(rule, names.take(i))
        },
{
    crate::engine::lemma_filter_take_step(
        names,
        |n: Seq<char>| rule.attributes.contains(n),
        i,
    );
}

/// Every name `keep_named` keeps is one the rule permits.
proof fn lemma_keep_named_pred(rule: ElementRule, names: Seq<Seq<char>>, i: int)
    requires
        0 <= i < keep_named(rule, names).len(),
    ensures
        rule.attributes.contains(keep_named(rule, names)[i]),
{
    broadcast use Seq::lemma_filter_pred;

    assert(keep_named(rule, names) == names.filter(
        |n: Seq<char>| rule.attributes.contains(n),
    ));
}

/// Taking a name out that a prefix nowhere holds passes over the prefix.
proof fn lemma_remove_first_past_prefix(a: Seq<Seq<char>>, b: Seq<Seq<char>>, name: Seq<char>)
    requires
        forall|i: int| 0 <= i < a.len() ==> (#[trigger] a[i]) != name,
    ensures
        remove_first_named(a + b, name) == a + remove_first_named(b, name),
    decreases a.len(),
{
    if a.len() == 0 {
        assert(a + b =~= b);
        assert(a + remove_first_named(b, name) =~= remove_first_named(b, name));
    } else {
        assert((a + b)[0] == a[0]);
        assert((a + b).drop_first() =~= a.drop_first() + b);
        lemma_remove_first_past_prefix(a.drop_first(), b, name);
        assert(seq![a[0]] + (a.drop_first() + remove_first_named(b, name)) =~= a
            + remove_first_named(b, name));
    }
}

/// Apply the policy to one element the tokenizer matched: a tag absent
/// from the allowlist is unwrapped (its markers removed, its content left
/// in the stream); an allowed tag keeps exactly its permitted attribute
/// names, in their original order, and is not removed.
pub fn filter_element(el: &mut lol_html::html_content::Element, settings: &Settings)
    ensures
        match lookup_rule(settings@.allowed, elem_tag(*old(el))) {
            None => elem_removed(*final(el)),
            Some(rule) => {
                &&& elem_attr_names(*final(el)) == keep_named(
                    rule,
                    elem_attr_names(*old(el)),
                )
                &&& elem_tag(*final(el)) == elem_tag(*old(el))
                &&& elem_removed(*final(el)) == elem_removed(*old(el))
            },
        },
{
    let tag = el_tag_name(el);
    match settings.lookup(&tag) {
        None => {
            el_remove_and_keep_content(el);
        },
        Some(idx) => {
            let ghost rule = settings@.allowed[idx as int];
            let names = el_attribute_names(el);
            let ghost all = names@.map_values(|s: String| s@);
            let mut k: usize = 0;
            proof {
                assert(keep_named(rule, all.take(0)) + all.skip(0) =~= all);
            }
            while k < names.len()
                invariant
                    k <= names.len(),
                    names@.map_values(|s: String| s@) == all,
                    forall|i: int| 0 <= i < names@.len() ==> ascii_lowercase(
                        (#[trigger] names@[i])@,
                    ),
                    idx < settings.allowed.len(),
                    rule == settings@.allowed[idx as int],
                    elem_attr_names(*el) == keep_named(rule, all.take(k as int)) + all.skip(
                        k as int,
                    ),
                    elem_tag(*el) == elem_tag(*old(el)),
                    elem_removed(*el) == elem_removed(*old(el)),
                decreases names@.len() - k,
            {
                proof {
                    assert(all[k as int] == names@[k as int]@);
                    lemma_keep_named_take_step(rule, all, k as int);
                    assert(all.skip(k as int) =~= seq![all[k as int]] + all.skip(k + 1));
                }
                if !settings.allowed[idx].is_attribute_allowed(&names[k]) {
                    proof {
                        let kept = keep_named(rule, all.take(k as int));
                        assert forall|i: int| 0 <= i < kept.len() implies (#[trigger] kept[i])
                            != all[k as int] by {
                            lemma_keep_named_pred(rule, all.take(k as int), i);
                        }
                        lemma_remove_first_past_prefix(kept, all.skip(k as int), all[k as int]);
                        assert(remove_first_named(all.skip(k as int), all[k as int]) == (
                        seq![all[k as int]] + all.skip(k + 1)).drop_first());
                        assert((seq![all[k as int]] + all.skip(k + 1)).drop_first() =~= all.skip(
                            k + 1,
                        ));
                    }
                    el_remove_attribute(el, &names[k]);
                } else {
                    proof {
                        assert(keep_named(rule, all.take(k as int)).push(all[k as int])
                            + all.skip(k + 1) =~= keep_named(rule, all.take(k as int)) + (
                        seq![all[k as int]] + all.skip(k + 1)));
                    }
                }
                k += 1;
            }
            proof {
                assert(all.take(names@.len() as int) =~= all);
                assert(keep_named(rule, all) + all.skip(names@.len() as int) =~= keep_named(
                    rule,
                    all,
                ));
            }
        },
    }
}

/// Apply the comment flag to one comment the tokenizer matched: under
/// `remove_comments` the comment is marked removed, else it is left
/// untouched.
pub fn filter_comment(c: &mut lol_html::html_content::Comment, settings: &Settings)
    ensures
        settings@.remove_comments ==> comment_removed(*final(c)),
        !settings@.remove_comments ==> *final(c) == *old(c),
{
    if settings.should_remove_comments() {
        co_remove(c);
    }
}

/// What one full run of the external rewriter leaves of the input under a
/// policy, or the error it reports: a function of the input text and the
/// policy alone.
pub uninterp spec fn purified_markup(input: Seq<char>, policy: PolicyModel) -> Result<
    Seq<char>,
    Seq<char>,
>;

/// Relies on lol_html's `rewrite_str`: one streaming pass of the tokenizer
/// over the input, with this library's element and comment handlers
/// attached to every element; parsing, repair of malformed markup and
/// re-escaping are the tokenizer's own, and the outcome is a function of
/// the input text and the policy alone.
#[verifier::external_body]
fn rewrite_document(input: &str, settings: &Settings) -> (r: Result<String, String>)
    ensures
        r matches Ok(s) ==> purified_markup(input@, settings@) matches Ok(o) && s@ == o,
        r matches Err(e) ==> purified_markup(input@, settings@) matches Err(m) && e@ == m,
{
    let handlers = lol_html::ElementContentHandlers::default().element(|el| {
        filter_element(el, settings);
        Ok(())
    }).comments(|c| {
        filter_comment(c, settings);
        Ok(())
    });
    let selector: lol_html::Selector = "*".parse().unwrap();
    let conf = lol_html::RewriteStrSettings {
        element_content_handlers: vec![(std::borrow::Cow::Owned(selector), handlers)],
        ..lol_html::RewriteStrSettings::default()
    };
    lol_html::rewrite_str(input, conf).map_err(|e| e.to_string())
}

/// Sanitize `input` under `settings`, surfacing the tokenizer's own
/// failure: where the external rewriter reports an error, it is handed
/// back as the error text and no output at all is released.
pub fn try_purifier(input: &str, settings: &Settings) -> (r: Result<String, String>)
    ensures
        r matches Ok(s) ==> purified_markup(input@, settings@) matches Ok(o) && s@ == o,
        r matches Err(e) ==> purified_markup(input@, settings@) matches Err(m) && e@ == m,
{
    rewrite_document(input, settings)
}

/// Sanitize `input` under `settings`: one streaming pass through the
/// external tokenizer, unwrapping elements absent from the allowlist,
/// stripping attributes the policy does not permit, and dropping comments
/// as configured.  An input the tokenizer cannot resolve yields the empty
/// string — no partial output is ever released; `try_purifier` surfaces
/// the failure itself.
pub fn purifier(input: &str, settings: Settings) -> (r: String)
    ensures
        purified_markup(input@, settings@) matches Ok(o) ==> r@ == o,
        purified_markup(input@, settings@) matches Err(_) ==> r@ == Seq::<char>::empty(),
{
    match try_purifier(input, &settings) {
        Ok(s) => s,
        Err(_) => String::new(),
    }
}

} // verus!
