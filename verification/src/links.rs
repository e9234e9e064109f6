//! Links of a page: which anchors count, and how they are resolved against
//! the address of the page they were found on.

use vstd::prelude::*;

verus! {

/// The selector of the elements that may carry a link: anchors with an `href`.
pub const ANCHOR_SELECTOR: &'static str = "a[href]";

/// The attribute that holds an anchor's target.
pub const HREF_ATTRIBUTE: &'static str = "href";

/// The scheme of the links that are left out: they address a mailbox, not a page.
pub const MAILTO_SCHEME: &'static str = "mailto";

/// What the `scraper` crate selects in the document `body`: for each element
/// that matches `selector`, in the order in which it yields them, the value of
/// `attribute`, or `None` where the element has no such attribute. `None` as a
/// whole where it refuses `selector`.
pub uninterp spec fn selected_attributes(
    body: Seq<char>,
    selector: Seq<char>,
    attribute: Seq<char>,
) -> Option<Seq<Option<Seq<char>>>>;

/// The scheme that the `url` crate reads from `href` taken as an absolute URL,
/// or `None` where `href` is no absolute URL.
pub uninterp spec fn absolute_scheme(href: Seq<char>) -> Option<Seq<char>>;

/// What the `url` crate makes of `href` joined to the absolute URL `base`, as
/// text; `None` where `base` is no absolute URL or the two do not join.
pub uninterp spec fn joined_url(base: Seq<char>, href: Seq<char>) -> Option<Seq<char>>;

/// Calls `scraper::Html::parse_document` on `body`, `scraper::Selector::parse`
/// on `selector`, and `Html::select`; of each element it copies out
/// `Element::attr(attribute)`.
///
/// Trusted: the result is `selected_attributes` of the three texts, a function
/// of them alone.
#[verifier::external_body]
fn select_attributes(body: &str, selector: &str, attribute: &str) -> (found: Option<
    Vec<Option<String>>,
>)
    ensures
        found.deep_view() == selected_attributes(body@, selector@, attribute@),
{
    match scraper::Selector::parse(selector) {
        Ok(sel) => {
            let document = scraper::Html::parse_document(body);
            Some(document.select(&sel).map(|e| e.value().attr(attribute).map(String::from)).collect())
        },
        Err(_) => None,
    }
}

/// Calls `url::Url::parse` on `href` and copies out `Url::scheme`.
///
/// Trusted: the result is `absolute_scheme` of the text, a function of it alone.
#[verifier::external_body]
fn parse_scheme(href: &str) -> (scheme: Option<String>)
    ensures
        scheme.deep_view() == absolute_scheme(href@),
{
    match url::Url::parse(href) {
        Ok(parsed) => Some(String::from(parsed.scheme())),
        Err(_) => None,
    }
}

/// Calls `url::Url::parse` on `base` and `Url::join` with `href`, and copies
/// out the joined URL as text.
///
/// Trusted: the result is `joined_url` of the two texts, a function of them
/// alone.
#[verifier::external_body]
fn join_url(base: &str, href: &str) -> (joined: Option<String>)
    ensures
        joined.deep_view() == joined_url(base@, href@),
{
    match url::Url::parse(base) {
        Ok(parsed) => match parsed.join(href) {
            Ok(target) => Some(String::from(target)),
            Err(_) => None,
        },
        Err(_) => None,
    }
}

/// Whether `href` is a link to follow: an absolute URL whose scheme is not
/// `mailto`.
pub open spec fn is_link(href: Seq<char>) -> bool {
    match absolute_scheme(href) {
        Some(scheme) => scheme != MAILTO_SCHEME@,
        None => false,
    }
}

/// The text of an anchor's target; an anchor without one has the empty text.
pub open spec fn href_text(href: Option<Seq<char>>) -> Seq<char> {
    match href {
        Some(text) => text,
        None => Seq::empty(),
    }
}

/// The link that an anchor's target gives: its text unchanged, where that is
/// a link to follow.
pub open spec fn link_of(href: Option<Seq<char>>) -> Option<Seq<char>> {
    if is_link(href_text(href)) {
        Some(href_text(href))
    } else {
        None
    }
}

/// The links among the targets `hrefs`, unchanged and in their order.
pub open spec fn links_among(hrefs: Seq<Option<Seq<char>>>) -> Seq<Seq<char>> {
    hrefs.filter_map(|href: Option<Seq<char>>| link_of(href))
}

/// The links of the page `body`; `None` where the anchors cannot be selected.
pub open spec fn links_in(body: Seq<char>) -> Option<Seq<Seq<char>>> {
    match selected_attributes(body, ANCHOR_SELECTOR@, HREF_ATTRIBUTE@) {
        Some(hrefs) => Some(links_among(hrefs)),
        None => None,
    }
}

/// The absolute URLs that `links` give on a page at `base`: each link joined
/// to `base`, those that do not join left out. Nothing where `base` is itself
/// no absolute URL.
pub open spec fn resolved_links(links: Seq<Seq<char>>, base: Seq<char>) -> Seq<Seq<char>> {
    if absolute_scheme(base) is Some {
        links.filter_map(|link: Seq<char>| joined_url(base, link))
    } else {
        Seq::empty()
    }
}

/// What the links among anchor targets are: every one of them is a link to
/// follow, so none has the scheme `mailto` and none is a relative target; and
/// every target that is a link to follow is among them, as it was written.
pub proof fn lemma_links_among(hrefs: Seq<Option<Seq<char>>>)
    ensures
        forall|link: Seq<char>| #[trigger]
            links_among(hrefs).contains(link) ==> is_link(link) && exists|i: int|
                0 <= i < hrefs.len() && href_text(#[trigger] hrefs[i]) == link,
        forall|i: int|
            0 <= i < hrefs.len() && is_link(href_text(hrefs[i])) ==> links_among(hrefs).contains(
                href_text(#[trigger] hrefs[i]),
            ),
        forall|link: Seq<char>|
            absolute_scheme(link) == Some(MAILTO_SCHEME@) ==> !(#[trigger] links_among(
                hrefs,
            ).contains(link)),
        forall|link: Seq<char>|
            absolute_scheme(link) is None ==> !(#[trigger] links_among(hrefs).contains(link)),
        links_among(hrefs).len() <= hrefs.len(),
    decreases hrefs.len(),
{
    let f = |href: Option<Seq<char>>| link_of(href);
    let out = links_among(hrefs);
    if hrefs.len() > 0 {
        let init = hrefs.drop_last();
        let before = links_among(init);
        lemma_links_among(init);
        assert forall|link: Seq<char>| #[trigger] out.contains(link) implies is_link(link)
            && exists|i: int| 0 <= i < hrefs.len() && href_text(#[trigger] hrefs[i]) == link by {
            let k = choose|k: int| 0 <= k < out.len() && out[k] == link;
            if k < before.len() {
                assert(before[k] == link);
                assert(before.contains(link));
                let i = choose|i: int| 0 <= i < init.len() && href_text(#[trigger] init[i]) == link;
                assert(href_text(hrefs[i]) == link);
            } else {
                assert(href_text(hrefs[hrefs.len() - 1]) == link);
            }
        }
        assert forall|i: int| 0 <= i < hrefs.len() && is_link(href_text(hrefs[i])) implies out.contains(
            href_text(#[trigger] hrefs[i]),
        ) by {
            if i < init.len() {
                assert(init[i] == hrefs[i]);
                assert(before.contains(href_text(init[i])));
                let k = choose|k: int| 0 <= k < before.len() && before[k] == href_text(init[i]);
                assert(out[k] == href_text(hrefs[i]));
            } else {
                assert(out[out.len() - 1] == href_text(hrefs[i]));
            }
        }
    }
}

/// Whether `href` is a link to follow.
pub fn is_followed(href: &str) -> (followed: bool)
    ensures
        followed == is_link(href@),
{
    match parse_scheme(href) {
        Some(scheme) => {
            let mailto = MAILTO_SCHEME.to_owned();
            !(scheme == mailto)
        },
        None => false,
    }
}

/// The links among the anchor targets `hrefs`: every target that is an
/// absolute URL with a scheme other than `mailto`, unchanged and in order.
pub fn keep_links(hrefs: Vec<Option<String>>) -> (links: Vec<String>)
    ensures
        links.deep_view() == links_among(hrefs.deep_view()),
{
    let ghost all = hrefs.deep_view();
    let ghost f = |href: Option<Seq<char>>| link_of(href);
    let mut hrefs = hrefs;
    let mut links: Vec<String> = Vec::new();
    assert(links.deep_view() =~= Seq::<Seq<char>>::empty());
    let mut i: usize = 0;
    while i < hrefs.len()
        invariant
            i <= hrefs.len(),
            hrefs.len() == all.len(),
            forall|j: int| i <= j < hrefs.len() ==> (#[trigger] hrefs[j]).deep_view() == all[j],
            f == |href: Option<Seq<char>>| link_of(href),
            links.deep_view() == all.take(i as int).filter_map(f),
        decreases hrefs.len() - i,
    {
        proof {
            let next = all.take(i + 1);
            assert(next.drop_last() =~= all.take(i as int));
            assert(next.last() == all[i as int]);
        }
        let mut href: Option<String> = None;
        core::mem::swap(&mut href, &mut hrefs[i]);
        let text = match href {
            Some(text) => text,
            None => String::new(),
        };
        assert(text@ == href_text(all[i as int]));
        if is_followed(text.as_str()) {
            links.push(text);
            assert(links.deep_view() =~= all.take(i as int).filter_map(f).push(
                href_text(all[i as int]),
            ));
        }
        i += 1;
    }
    assert(all.take(i as int) =~= all);
    links
}

/// The links of the page `body`: of every anchor with an `href`, the target
/// as written, where it is an absolute URL with a scheme other than `mailto`.
/// Relative targets are left out. `None` only where the anchors cannot be
/// selected.
pub fn extract_links(body: &str) -> (links: Option<Vec<String>>)
    ensures
        links.deep_view() == links_in(body@),
{
    match select_attributes(body, ANCHOR_SELECTOR, HREF_ATTRIBUTE) {
        Some(hrefs) => Some(keep_links(hrefs)),
        None => None,
    }
}

/// The absolute URLs of `links` found on the page at `base_url`: each link
/// joined to `base_url`, in order, with repetitions. A link that does not join
/// is left out; where `base_url` is no absolute URL, all are.
pub fn process_links(links: Vec<String>, base_url: &str) -> (resolved: Vec<String>)
    ensures
        resolved.deep_view() == resolved_links(links.deep_view(), base_url@),
{
    let ghost all = links.deep_view();
    let ghost f = |link: Seq<char>| joined_url(base_url@, link);
    let mut resolved: Vec<String> = Vec::new();
    assert(resolved.deep_view() =~= Seq::<Seq<char>>::empty());
    if parse_scheme(base_url).is_none() {
        return resolved;
    }
    let mut i: usize = 0;
    while i < links.len()
        invariant
            i <= links.len(),
            all == links.deep_view(),
            f == |link: Seq<char>| joined_url(base_url@, link),
            resolved.deep_view() == all.take(i as int).filter_map(f),
        decreases links.len() - i,
    {
        proof {
            let next = all.take(i + 1);
            assert(next.drop_last() =~= all.take(i as int));
            assert(next.last() == links[i as int]@);
        }
        match join_url(base_url, links[i].as_str()) {
            Some(target) => {
                resolved.push(target);
                assert(resolved.deep_view() =~= all.take(i as int).filter_map(f).push(target@));
            },
            None => {},
        }
        i += 1;
    }
    assert(all.take(i as int) =~= all);
    resolved
}

} // verus!
