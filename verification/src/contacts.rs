//! Contacts found in what a crawl has gathered: phone numbers among the links,
//! e-mail addresses in the text of the pages.

use crate::distinct::{distinct, first_occurrences, push_distinct};
use crate::distinct::{lemma_first_occurrences, lemma_merge_concat, lemma_merge_distinct};
use vstd::prelude::*;
use vstd::string::StrSliceExecFns;

verus! {

/// The prefix that marks a link as a phone number.
pub open spec fn tel_prefix() -> Seq<char> {
    seq!['t', 'e', 'l', ':']
}

/// The phone number that `link` stands for: what follows the prefix `tel:`,
/// if `link` begins with it.
pub open spec fn phone_of(link: Seq<char>) -> Option<Seq<char>> {
    if tel_prefix().is_prefix_of(link) {
        Some(link.skip(4))
    } else {
        None
    }
}

/// The phone numbers among `links`, each once, in the order in which they
/// first occur.
pub open spec fn phones_of(links: Seq<Seq<char>>) -> Seq<Seq<char>> {
    first_occurrences(phone_entries(links))
}

/// The phone numbers of `links` one by one, with repetitions.
pub open spec fn phone_entries(links: Seq<Seq<char>>) -> Seq<Seq<char>> {
    links.filter_map(|link: Seq<char>| phone_of(link))
}

/// The phone numbers of `links` are those of its links that begin with `tel:`.
pub proof fn lemma_phone_entries(links: Seq<Seq<char>>)
    ensures
        forall|phone: Seq<char>| #[trigger]
            phone_entries(links).contains(phone) <==> exists|i: int|
                0 <= i < links.len() && phone_of(#[trigger] links[i]) == Some(phone),
    decreases links.len(),
{
    let out = phone_entries(links);
    if links.len() == 0 {
        assert forall|phone: Seq<char>| #[trigger] out.contains(phone) implies false by {}
    } else {
        let init = links.drop_last();
        let before = phone_entries(init);
        lemma_phone_entries(init);
        assert forall|phone: Seq<char>| #[trigger]
            out.contains(phone) <==> exists|i: int|
                0 <= i < links.len() && phone_of(#[trigger] links[i]) == Some(phone) by {
            if out.contains(phone) {
                let k = choose|k: int| 0 <= k < out.len() && out[k] == phone;
                if k < before.len() {
                    assert(before[k] == phone);
                    assert(before.contains(phone));
                    let i = choose|i: int|
                        0 <= i < init.len() && phone_of(#[trigger] init[i]) == Some(phone);
                    assert(phone_of(links[i]) == Some(phone));
                } else {
                    assert(phone_of(links[links.len() - 1]) == Some(phone));
                }
            }
            if exists|i: int| 0 <= i < links.len() && phone_of(#[trigger] links[i]) == Some(phone) {
                let i = choose|i: int|
                    0 <= i < links.len() && phone_of(#[trigger] links[i]) == Some(phone);
                if i < init.len() {
                    assert(phone_of(init[i]) == Some(phone));
                    assert(before.contains(phone));
                    let k = choose|k: int| 0 <= k < before.len() && before[k] == phone;
                    assert(out[k] == phone);
                } else {
                    assert(out[out.len() - 1] == phone);
                }
            }
        }
    }
}

/// The phone numbers among `links` hold nothing twice, and hold exactly what
/// follows `tel:` in the links that begin with it.
pub proof fn lemma_phones_of(links: Seq<Seq<char>>)
    ensures
        phones_of(links).no_duplicates(),
        forall|phone: Seq<char>| #[trigger]
            phones_of(links).contains(phone) <==> exists|i: int|
                0 <= i < links.len() && phone_of(#[trigger] links[i]) == Some(phone),
{
    lemma_phone_entries(links);
    lemma_first_occurrences(phone_entries(links));
}

/// Which phone numbers are found depends on which links there are, not on
/// their order nor on how often each occurs.
pub proof fn lemma_phones_of_same_links(a: Seq<Seq<char>>, b: Seq<Seq<char>>)
    requires
        a.to_set() == b.to_set(),
    ensures
        phones_of(a).to_set() == phones_of(b).to_set(),
{
    lemma_phones_of(a);
    lemma_phones_of(b);
    assert forall|phone: Seq<char>| phones_of(a).contains(phone) implies phones_of(b).contains(
        phone,
    ) by {
        lemma_carried_over(a, b, phone);
    }
    assert forall|phone: Seq<char>| phones_of(b).contains(phone) implies phones_of(a).contains(
        phone,
    ) by {
        lemma_carried_over(b, a, phone);
    }
    assert(phones_of(a).to_set() =~= phones_of(b).to_set());
}

proof fn lemma_carried_over(a: Seq<Seq<char>>, b: Seq<Seq<char>>, phone: Seq<char>)
    requires
        a.to_set() == b.to_set(),
        exists|i: int| 0 <= i < a.len() && phone_of(#[trigger] a[i]) == Some(phone),
    ensures
        exists|i: int| 0 <= i < b.len() && phone_of(#[trigger] b[i]) == Some(phone),
{
    let i = choose|i: int| 0 <= i < a.len() && phone_of(#[trigger] a[i]) == Some(phone);
    assert(a.contains(a[i]));
    assert(a.to_set().contains(a[i]));
    assert(b.to_set().contains(a[i]));
    assert(b.contains(a[i]));
    let j = choose|j: int| 0 <= j < b.len() && b[j] == a[i];
    assert(phone_of(b[j]) == Some(phone));
}

/// Links that come later take no phone number away and move none: the
/// numbers found among `links` stay, in their order, at the head of those
/// found among `links + more`.
pub proof fn lemma_phones_of_grow(links: Seq<Seq<char>>, more: Seq<Seq<char>>)
    ensures
        phones_of(links).is_prefix_of(phones_of(links + more)),
{
    lemma_phone_entries_concat(links, more);
    lemma_merge_concat(Seq::empty(), phone_entries(links), phone_entries(more));
    lemma_first_occurrences(phone_entries(links));
    lemma_merge_distinct(phones_of(links), phone_entries(more));
}

/// The phone numbers of two lists of links, one after the other.
pub proof fn lemma_phone_entries_concat(a: Seq<Seq<char>>, b: Seq<Seq<char>>)
    ensures
        phone_entries(a + b) == phone_entries(a) + phone_entries(b),
    decreases b.len(),
{
    if b.len() == 0 {
        assert(a + b =~= a);
        assert(phone_entries(a) + phone_entries(b) =~= phone_entries(a));
    } else {
        lemma_phone_entries_concat(a, b.drop_last());
        assert((a + b).drop_last() =~= a + b.drop_last());
        assert((a + b).last() == b.last());
        assert(phone_entries(a + b) =~= phone_entries(a) + phone_entries(b));
    }
}

/// The phone number of one link: `link` without its prefix `tel:`, or `None`
/// where it does not begin with it.
pub fn phone_number(link: &str) -> (phone: Option<String>)
    ensures
        phone.deep_view() == phone_of(link@),
{
    let n = link.unicode_len();
    if n < 4 {
        return None;
    }
    if link.get_char(0) == 't' && link.get_char(1) == 'e' && link.get_char(2) == 'l'
        && link.get_char(3) == ':' {
        assert(link@.subrange(0, 4) =~= tel_prefix());
        let rest = link.substring_char(4, n);
        Some(rest.to_owned())
    } else {
        assert(link@.subrange(0, 4) != tel_prefix()) by {
            if link@.subrange(0, 4) == tel_prefix() {
                assert(link@.subrange(0, 4)[0] == 't');
                assert(link@.subrange(0, 4)[1] == 'e');
                assert(link@.subrange(0, 4)[2] == 'l');
                assert(link@.subrange(0, 4)[3] == ':');
            }
        }
        None
    }
}

/// The phone numbers among `links`: of every link that begins with `tel:`
/// what follows the prefix, each number once, in the order of first
/// occurrence.
pub fn get_phones(links: &[String]) -> (phones: Vec<String>)
    ensures
        phones.deep_view() == phones_of(links.deep_view()),
{
    let ghost all = links.deep_view();
    let ghost f = |link: Seq<char>| phone_of(link);
    let mut phones: Vec<String> = Vec::new();
    assert(phones.deep_view() =~= Seq::<Seq<char>>::empty());
    let mut i: usize = 0;
    while i < links.len()
        invariant
            i <= links.len(),
            all == links.deep_view(),
            f == |link: Seq<char>| phone_of(link),
            phones.deep_view() == first_occurrences(all.take(i as int).filter_map(f)),
        decreases links.len() - i,
    {
        proof {
            let next = all.take(i + 1);
            assert(next.drop_last() =~= all.take(i as int));
            assert(next.last() == links[i as int]@);
        }
        match phone_number(links[i].as_str()) {
            Some(p) => {
                push_distinct(&mut phones, p);
                proof {
                    let before = all.take(i as int).filter_map(f);
                    let after = all.take(i + 1).filter_map(f);
                    assert(after == before + seq![p@]);
                    assert(after.drop_last() =~= before);
                }
            },
            None => {},
        }
        i += 1;
    }
    assert(all.take(i as int) =~= all);
    phones
}

/// The pattern of an e-mail address, in the syntax of the `regex` crate: a
/// local part of letters, digits and `._%+-`, an `@`, a domain of letters,
/// digits and `.-`, a dot, and a top-level domain of two or more letters, the
/// whole between two word boundaries.
pub const EMAIL_PATTERN: &'static str = "\\b[A-Za-z0-9._%+-]+@[A-Za-z0-9.-]+\\.[A-Za-z]{2,}\\b";

/// What the `regex` crate finds of `pattern` in `text`: the successive
/// non-overlapping matches from left to right, or `None` where it refuses
/// `pattern`.
pub uninterp spec fn regex_matches(pattern: Seq<char>, text: Seq<char>) -> Option<Seq<Seq<char>>>;

/// `part` stands somewhere in `whole`, character for character.
pub open spec fn occurs_in(part: Seq<char>, whole: Seq<char>) -> bool {
    exists|k: int|
        0 <= k && k + part.len() <= whole.len() && #[trigger] whole.subrange(
            k,
            k + part.len(),
        ) == part
}

/// Calls `regex::Regex::new` on `pattern` and, where that compiles,
/// `Regex::find_iter` on `text`, copying out each `Match::as_str`.
///
/// Trusted: the result is `regex_matches` of the two texts, a function of them
/// alone, and every match is a piece of `text`.
#[verifier::external_body]
fn find_matches(pattern: &str, text: &str) -> (found: Option<Vec<String>>)
    ensures
        found.deep_view() == regex_matches(pattern@, text@),
        found matches Some(ms) ==> forall|i: int|
            0 <= i < ms.len() ==> occurs_in(#[trigger] ms.deep_view()[i], text@),
{
    match regex::Regex::new(pattern) {
        Ok(re) => Some(re.find_iter(text).map(|m| m.as_str().to_string()).collect()),
        Err(_) => None,
    }
}

/// The e-mail addresses in `html`: the matches of `EMAIL_PATTERN`, each once,
/// in the order of first occurrence; `None` where the pattern is refused.
pub open spec fn emails_of(html: Seq<char>) -> Option<Seq<Seq<char>>> {
    match regex_matches(EMAIL_PATTERN@, html) {
        Some(found) => Some(first_occurrences(found)),
        None => None,
    }
}

/// The e-mail addresses in `html`, each once, in the order in which they
/// first occur. Every address is a piece of `html`. The result is `None` only
/// where the pattern matcher refuses `EMAIL_PATTERN`.
pub fn get_emails(html: &str) -> (emails: Option<Vec<String>>)
    ensures
        emails.deep_view() == emails_of(html@),
        emails matches Some(list) ==> list.deep_view().no_duplicates() && forall|i: int|
            0 <= i < list.len() ==> occurs_in(#[trigger] list.deep_view()[i], html@),
{
    match find_matches(EMAIL_PATTERN, html) {
        Some(found) => {
            let list = distinct(&found);
            proof {
                let ms = found.deep_view();
                lemma_first_occurrences(ms);
                assert forall|i: int| 0 <= i < list.len() implies occurs_in(
                    #[trigger] list.deep_view()[i],
                    html@,
                ) by {
                    let e = list.deep_view()[i];
                    assert(first_occurrences(ms).contains(e));
                    assert(ms.contains(e));
                    let j = choose|j: int| 0 <= j < ms.len() && ms[j] == e;
                    assert(occurs_in(ms[j], html@));
                }
            }
            Some(list)
        },
        None => None,
    }
}

/// The contacts found by a crawl.
#[derive(Clone, Debug, PartialEq, Eq)]
pub struct Contacts {
    /// The e-mail addresses in the text of the pages, each once.
    pub emails: Vec<String>,
    /// The phone numbers among the links, each once.
    pub phone_numbers: Vec<String>,
}

/// Contacts as values: the two lists as sequences of texts.
pub struct ContactLists {
    pub emails: Seq<Seq<char>>,
    pub phone_numbers: Seq<Seq<char>>,
}

impl DeepView for Contacts {
    type V = ContactLists;

    open spec fn deep_view(&self) -> ContactLists {
        ContactLists {
            emails: self.emails.deep_view(),
            phone_numbers: self.phone_numbers.deep_view(),
        }
    }
}

/// The contacts in the text `html` and among `links`; `None` where the
/// pattern of an e-mail address is refused.
pub open spec fn contacts_in(html: Seq<char>, links: Seq<Seq<char>>) -> Option<ContactLists> {
    match emails_of(html) {
        Some(emails) => Some(ContactLists { emails, phone_numbers: phones_of(links) }),
        None => None,
    }
}

/// The same text and the same links give the same contacts, in whatever order
/// the links come and however often each occurs: the e-mail addresses are the
/// same list, the phone numbers the same set.
pub proof fn lemma_contacts_in_same_links(html: Seq<char>, a: Seq<Seq<char>>, b: Seq<Seq<char>>)
    requires
        a.to_set() == b.to_set(),
    ensures
        contacts_in(html, a) is Some <==> contacts_in(html, b) is Some,
        contacts_in(html, a) matches Some(found) ==> found.emails == contacts_in(html, b)->0.emails
            && found.phone_numbers.to_set() == contacts_in(html, b)->0.phone_numbers.to_set(),
{
    lemma_phones_of_same_links(a, b);
}

/// The contacts in what a crawl has gathered: the e-mail addresses in the
/// text `html`, the phone numbers among `links`. `None` only where the
/// pattern of an e-mail address is refused.
pub fn find_contacts(html: &str, links: &[String]) -> (contacts: Option<Contacts>)
    ensures
        contacts.deep_view() == contacts_in(html@, links.deep_view()),
{
    match get_emails(html) {
        Some(emails) => Some(Contacts { emails, phone_numbers: get_phones(links) }),
        None => None,
    }
}

} // verus!
