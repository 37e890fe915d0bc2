//! The pages the user came from, so that a page can send them back.
use vstd::prelude::*;
use vstd::string::*;

verus! {

/// A location inside the application: a path, with its query and
/// fragment when it has them.
#[derive(Debug, Default, Clone, PartialEq, Eq)]
pub struct Url {
    pub url: String,
}

impl Url {
    /// The location as text.
    pub fn to_string(&self) -> (r: String)
        ensures
            r@ == self.url@,
    {
        self.url.clone()
    }
}

/// The text of a location: the path, then `?` and the query when there is
/// one, then `#` and the fragment when there is one.
pub open spec fn location_text(pathname: Seq<char>, search: Seq<char>, hash: Seq<char>) -> Seq<char> {
    pathname + (if search.len() > 0 {
        seq!['?'] + search
    } else {
        Seq::empty()
    }) + (if hash.len() > 0 {
        seq!['#'] + hash
    } else {
        Seq::empty()
    })
}

/// The locations visited, oldest first.
#[derive(Debug, Default, Clone)]
pub struct History {
    pub history: Vec<Url>,
}

/// The texts of the locations in `h`, oldest first.
pub open spec fn urls(h: Seq<Url>) -> Seq<Seq<char>> {
    h.map_values(|u: Url| u.url@)
}

impl History {
    /// The location to go back to: the last one saved, if any.
    pub fn back(&self) -> (r: Option<Url>)
        ensures
            self.history@.len() == 0 ==> r is None,
            self.history@.len() > 0 ==> (r matches Some(u) && u.url@ == self.history@.last().url@),
    {
        let n = self.history.len();
        if n == 0 {
            None
        } else {
            let last = &self.history[n - 1];
            Some(Url { url: last.url.clone() })
        }
    }

    /// Saves the current location, made of its path, query and fragment.
    pub fn save_location(&mut self, pathname: &str, search: &str, hash: &str)
        ensures
            final(self).history@.len() == old(self).history@.len() + 1,
            forall|i: int| 0 <= i < old(self).history@.len() ==> #[trigger] final(self).history@[i] == old(self).history@[i],
            final(self).history@.last().url@ == location_text(pathname@, search@, hash@),
    {
        let mut url = pathname.to_owned();
        if !search.is_empty() {
            url.append("?");
            url.append(search);
        }
        if !hash.is_empty() {
            url.append("#");
            url.append(hash);
        }
        proof {
            reveal_strlit("?");
            reveal_strlit("#");
            assert(url@ =~= location_text(pathname@, search@, hash@));
        }
        self.history.push(Url { url });
    }
}

} // verus!
