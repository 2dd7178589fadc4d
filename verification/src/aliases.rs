//! Email aliases: addresses that stand for another address of the same
//! author.
use vstd::prelude::*;
use crate::error::{Error, ErrorKind};
use crate::text::{enclose, find_char};

verus! {

/// Pairs of an alias and the address that it stands for. Where an alias
/// occurs more than once, the last pair counts.
#[derive(Clone, Debug)]
pub struct AliasTable {
    pub pairs: Vec<(String, String)>,
}

/// The address that each alias stands for, the pairs taken in their order.
pub open spec fn alias_map(pairs: Seq<(String, String)>) -> Map<Seq<char>, Seq<char>>
    decreases pairs.len(),
{
    if pairs.len() == 0 {
        Map::empty()
    } else {
        alias_map(pairs.drop_last()).insert(pairs.last().0@, pairs.last().1@)
    }
}

/// The address under which commits of `email` are gathered: what the alias
/// stands for, or the address itself where it is no alias.
pub open spec fn canonical(aliases: Map<Seq<char>, Seq<char>>, email: Seq<char>) -> Seq<char> {
    if aliases.dom().contains(email) {
        aliases[email]
    } else {
        email
    }
}

impl View for AliasTable {
    type V = Map<Seq<char>, Seq<char>>;

    open spec fn view(&self) -> Map<Seq<char>, Seq<char>> {
        alias_map(self.pairs@)
    }
}

impl AliasTable {
    /// A table without aliases.
    pub fn new() -> (table: AliasTable)
        ensures
            table@ == Map::<Seq<char>, Seq<char>>::empty(),
    {
        AliasTable { pairs: Vec::new() }
    }

    /// Lets `alias` stand for `main` from now on.
    pub fn insert(&mut self, alias: String, main: String)
        ensures
            final(self)@ == old(self)@.insert(alias@, main@),
    {
        self.pairs.push((alias, main));
        proof {
            assert(self.pairs@.drop_last() =~= old(self).pairs@);
        }
    }

    /// The address under which commits of `email` are gathered.
    pub fn resolve(&self, email: &String) -> (main: String)
        ensures
            main@ == canonical(self@, email@),
    {
        let mut i: usize = self.pairs.len();
        proof {
            assert(self.pairs@.subrange(0, i as int) =~= self.pairs@);
        }
        while i > 0
            invariant
                i <= self.pairs.len(),
                canonical(self@, email@) == canonical(alias_map(self.pairs@.subrange(0, i as int)), email@),
            decreases i,
        {
            proof {
                let part = self.pairs@.subrange(0, i as int);
                assert(part.drop_last() =~= self.pairs@.subrange(0, i - 1));
                assert(part.last() == self.pairs@[i - 1]);
            }
            i = i - 1;
            if self.pairs[i].0 == *email {
                return self.pairs[i].1.clone();
            }
        }
        email.clone()
    }
}

/// Whether `place` is where the first `=` of `text` stands.
pub open spec fn is_first_equals(text: Seq<char>, place: int) -> bool {
    &&& 0 <= place < text.len()
    &&& text[place] == '='
    &&& forall|k: int| 0 <= k < place ==> text[k] != '='
}

/// The two addresses of an alias written as `OTHER_EMAIL=MAIN_EMAIL`: what
/// stands before the first `=`, and what stands behind it.
pub open spec fn alias_split(text: Seq<char>) -> Option<(Seq<char>, Seq<char>)> {
    if exists|place: int| is_first_equals(text, place) {
        let place = choose|place: int| is_first_equals(text, place);
        Some((text.subrange(0, place), text.subrange(place + 1, text.len() as int)))
    } else {
        None
    }
}

/// The message for an alias without `=`.
pub open spec fn alias_error_text(text: Seq<char>) -> Seq<char> {
    "Could not parse email alias '"@ + text + "'"@
}

/// Reads an alias written as `OTHER_EMAIL=MAIN_EMAIL`.
pub fn parse_email_alias(s: &str) -> (alias: Result<(String, String), Error>)
    ensures
        match alias {
            Ok(pair) => alias_split(s@) == Some((pair.0@, pair.1@)) && s@ == pair.0@ + seq!['='] + pair.1@
                && !pair.0@.contains('='),
            Err(e) => alias_split(s@) is None && !s@.contains('=') && e.0 is EmailAlias && e.text()
                == alias_error_text(s@),
        },
{
    match find_char(s, '=') {
        Some(place) => {
            let length = s.unicode_len();
            let other = s.substring_char(0, place);
            let main = s.substring_char(place + 1, length);
            proof {
                assert(is_first_equals(s@, place as int));
                let chosen = choose|p: int| is_first_equals(s@, p);
                assert(chosen == place) by {
                    if chosen < place {
                        assert(s@[chosen] != '=');
                    } else if place < chosen {
                        assert(s@[place as int] != '=');
                    }
                }
            }
            proof {
                assert(s@ =~= other@ + seq!['='] + main@);
                if other@.contains('=') {
                    let k = choose|k: int| 0 <= k < other@.len() && other@[k] == '=';
                    assert(s@[k] == '=');
                }
            }
            Ok((String::from_str(other), String::from_str(main)))
        },
        None => {
            proof {
                if exists|place: int| is_first_equals(s@, place) {
                    let place = choose|place: int| is_first_equals(s@, place);
                    assert(s@.contains(s@[place]));
                }
            }
            Err(Error(ErrorKind::EmailAlias(enclose("Could not parse email alias '", s, "'"))))
        },
    }
}

/// The table that a list of written aliases gives, where each of them has
/// its `=`.
pub open spec fn aliases_read(emails: Seq<String>) -> Option<Map<Seq<char>, Seq<char>>>
    decreases emails.len(),
{
    if emails.len() == 0 {
        Some(Map::empty())
    } else {
        match (aliases_read(emails.drop_last()), alias_split(emails.last()@)) {
            (Some(table), Some(pair)) => Some(table.insert(pair.0, pair.1)),
            _ => None,
        }
    }
}

/// Whether the alias at `place` is the first of `emails` without `=`.
pub open spec fn is_first_bad_alias(emails: Seq<String>, place: int) -> bool {
    &&& 0 <= place < emails.len()
    &&& alias_split(emails[place]@) is None
    &&& forall|k: int| 0 <= k < place ==> alias_split(#[trigger] emails[k]@) is Some
}

/// Reads a list of written aliases into a table; fails on the first of them
/// that has no `=`.
pub fn read_aliases(emails: &Vec<String>) -> (table: Result<AliasTable, Error>)
    ensures
        match table {
            Ok(t) => aliases_read(emails@) == Some(t@),
            Err(e) => aliases_read(emails@) is None && e.0 is EmailAlias && exists|place: int|
                #[trigger] is_first_bad_alias(emails@, place) && e.text() == alias_error_text(emails@[place]@),
        },
{
    let mut table = AliasTable::new();
    let mut i: usize = 0;
    proof {
        assert(emails@.subrange(0, 0) =~= Seq::<String>::empty());
    }
    while i < emails.len()
        invariant
            i <= emails.len(),
            aliases_read(emails@.subrange(0, i as int)) == Some(table@),
            forall|k: int| 0 <= k < i ==> alias_split(#[trigger] emails@[k]@) is Some,
        decreases emails.len() - i,
    {
        proof {
            let part = emails@.subrange(0, i + 1);
            assert(part.drop_last() =~= emails@.subrange(0, i as int));
            assert(part.last() == emails@[i as int]);
        }
        match parse_email_alias(emails[i].as_str()) {
            Ok(pair) => {
                table.insert(pair.0, pair.1);
            },
            Err(e) => {
                proof {
                    assert(is_first_bad_alias(emails@, i as int));
                    lemma_bad_alias(emails@, i as int);
                }
                return Err(e);
            },
        }
        i = i + 1;
    }
    proof {
        assert(emails@.subrange(0, i as int) =~= emails@);
    }
    Ok(table)
}

/// A list that holds an alias without `=` gives no table.
pub proof fn lemma_bad_alias(emails: Seq<String>, place: int)
    requires
        0 <= place < emails.len(),
        alias_split(emails[place]@) is None,
    ensures
        aliases_read(emails) is None,
    decreases emails.len(),
{
    if place < emails.len() - 1 {
        lemma_bad_alias(emails.drop_last(), place);
    }
}

} // verus!
