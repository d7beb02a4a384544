//! A header collection: a list of name/value pairs whose abstract view is the
//! map in which a later entry for a name overrides an earlier one.
use vstd::prelude::*;

use crate::strutil::str_eq;

verus! {

/// The map described by an entry list, later entries winning.
pub open spec fn map_of(es: Seq<(Seq<char>, Seq<char>)>) -> Map<Seq<char>, Seq<char>>
    decreases es.len(),
{
    if es.len() == 0 {
        Map::empty()
    } else {
        map_of(es.drop_last()).insert(es.last().0, es.last().1)
    }
}

pub proof fn lemma_map_of_absent(es: Seq<(Seq<char>, Seq<char>)>, k: Seq<char>)
    requires
        forall|j: int| 0 <= j < es.len() ==> (#[trigger] es[j]).0 != k,
    ensures
        !map_of(es).contains_key(k),
    decreases es.len(),
{
    if es.len() > 0 {
        lemma_map_of_absent(es.drop_last(), k);
    }
}

/// The value of a name in the map is the value of its last entry.
pub proof fn lemma_map_of_last(es: Seq<(Seq<char>, Seq<char>)>, k: Seq<char>, i: int)
    requires
        0 <= i < es.len(),
        es[i].0 == k,
        forall|j: int| i < j < es.len() ==> (#[trigger] es[j]).0 != k,
    ensures
        map_of(es).contains_key(k),
        map_of(es)[k] == es[i].1,
    decreases es.len(),
{
    if i == es.len() - 1 {
    } else {
        lemma_map_of_last(es.drop_last(), k, i);
    }
}

/// The entry list with every entry for the name `k` removed, order kept.
pub open spec fn remove_name(es: Seq<(Seq<char>, Seq<char>)>, k: Seq<char>) -> Seq<
    (Seq<char>, Seq<char>),
>
    decreases es.len(),
{
    if es.len() == 0 {
        Seq::empty()
    } else if es[0].0 == k {
        remove_name(es.drop_first(), k)
    } else {
        seq![es[0]] + remove_name(es.drop_first(), k)
    }
}

proof fn lemma_remove_name_push(es: Seq<(Seq<char>, Seq<char>)>, k: Seq<char>, e: (
    Seq<char>,
    Seq<char>,
))
    ensures
        remove_name(es.push(e), k) == (if e.0 == k {
            remove_name(es, k)
        } else {
            remove_name(es, k).push(e)
        }),
    decreases es.len(),
{
    if es.len() == 0 {
        assert(es.push(e)[0] == e);
        assert(es.push(e).drop_first() =~= Seq::<(Seq<char>, Seq<char>)>::empty());
        if e.0 != k {
            assert(seq![e] + remove_name(Seq::empty(), k) =~= remove_name(es, k).push(e));
        }
    } else {
        assert(es.push(e)[0] == es[0]);
        assert(es.push(e).drop_first() =~= es.drop_first().push(e));
        lemma_remove_name_push(es.drop_first(), k, e);
        if es[0].0 != k && e.0 != k {
            assert(seq![es[0]] + remove_name(es.drop_first(), k).push(e) =~= (seq![es[0]]
                + remove_name(es.drop_first(), k)).push(e));
        }
    }
}

proof fn lemma_map_of_remove_name(es: Seq<(Seq<char>, Seq<char>)>, k: Seq<char>)
    ensures
        map_of(remove_name(es, k)) == map_of(es).remove(k),
    decreases es.len(),
{
    if es.len() == 0 {
        assert(map_of(remove_name(es, k)) =~= map_of(es).remove(k));
    } else {
        let dl = es.drop_last();
        let last = es.last();
        lemma_map_of_remove_name(dl, k);
        assert(dl.push(last) =~= es);
        lemma_remove_name_push(dl, k, last);
        if last.0 == k {
            assert(map_of(dl).insert(last.0, last.1).remove(k) =~= map_of(dl).remove(k));
        } else {
            assert(remove_name(dl, k).push(last).drop_last() =~= remove_name(dl, k));
            assert(remove_name(dl, k).push(last).last() == last);
            assert(map_of(dl).remove(k).insert(last.0, last.1) =~= map_of(dl).insert(
                last.0,
                last.1,
            ).remove(k));
        }
    }
}

/// A string-to-string header mapping. Entries keep their insertion order and
/// carry one value per name: setting a present name replaces its entry. The
/// abstract view is the corresponding map.
#[derive(Debug)]
pub struct Headers {
    entries: Vec<(String, String)>,
}

impl Headers {
    /// The entry list, by view: name/value character sequences in order.
    pub closed spec fn entries_view(&self) -> Seq<(Seq<char>, Seq<char>)> {
        self.entries@.map_values(|p: (String, String)| (p.0@, p.1@))
    }

    pub fn new() -> (h: Headers)
        ensures
            h@ == Map::<Seq<char>, Seq<char>>::empty(),
            h.entries_view() == Seq::<(Seq<char>, Seq<char>)>::empty(),
    {
        let h = Headers { entries: Vec::new() };
        proof {
            assert(h.entries_view() =~= Seq::<(Seq<char>, Seq<char>)>::empty());
        }
        h
    }

    /// Sets a name to a value: any entry the name already has is removed and
    /// one entry appended, so the list never carries a duplicate name.
    pub fn insert(&mut self, name: String, value: String)
        ensures
            final(self)@ == old(self)@.insert(name@, value@),
            final(self).entries_view() == remove_name(old(self).entries_view(), name@).push(
                (name@, value@),
            ),
    {
        let ghost orig = self.entries_view();
        let ghost k = name@;
        let mut i: usize = 0;
        proof {
            assert(orig.skip(0) =~= orig);
            assert(orig.take(0) + remove_name(orig, k) =~= remove_name(orig, k));
        }
        while i < self.entries.len()
            invariant
                i <= self.entries.len(),
                k == name@,
                orig == old(self).entries_view(),
                remove_name(orig, k) == self.entries_view().take(i as int) + remove_name(
                    self.entries_view().skip(i as int),
                    k,
                ),
            decreases self.entries.len() - i,
        {
            let ghost cur = self.entries_view();
            proof {
                assert(cur.skip(i as int)[0] == cur[i as int]);
            }
            if str_eq(self.entries[i].0.as_str(), name.as_str()) {
                self.entries.remove(i);
                proof {
                    assert(self.entries_view() =~= cur.take(i as int) + cur.skip(i as int + 1));
                    assert(self.entries_view().take(i as int) =~= cur.take(i as int));
                    assert(self.entries_view().skip(i as int) =~= cur.skip(i as int + 1));
                    assert(cur.skip(i as int).drop_first() =~= cur.skip(i as int + 1));
                }
            } else {
                proof {
                    assert(cur.skip(i as int).drop_first() =~= cur.skip(i as int + 1));
                    assert(cur.take(i as int) + (seq![cur[i as int]] + remove_name(
                        cur.skip(i as int + 1),
                        k,
                    )) =~= cur.take(i + 1) + remove_name(cur.skip(i as int + 1), k));
                }
                i = i + 1;
            }
        }
        proof {
            let cur = self.entries_view();
            assert(cur.skip(i as int) =~= Seq::<(Seq<char>, Seq<char>)>::empty());
            assert(cur.take(i as int) =~= cur);
            assert(cur.take(i as int) + remove_name(cur.skip(i as int), k) =~= cur);
            lemma_map_of_remove_name(orig, k);
        }
        let ghost before_push = self.entries_view();
        let ghost vv = value@;
        self.entries.push((name, value));
        proof {
            assert(self.entries_view() =~= before_push.push((k, vv)));
            assert(self.entries_view().drop_last() =~= before_push);
            assert(map_of(orig).remove(k).insert(k, vv) =~= map_of(orig).insert(k, vv));
        }
    }

    /// Looks a name up; the result is the value of the last entry with that
    /// name, or `None` when there is none.
    pub fn get(&self, name: &str) -> (r: Option<String>)
        ensures
            match r {
                Some(v) => self@.contains_key(name@) && v@ == self@[name@],
                None => !self@.contains_key(name@),
            },
    {
        let mut i: usize = self.entries.len();
        while i > 0
            invariant
                i <= self.entries.len(),
                forall|j: int|
                    i <= j < self.entries_view().len() ==> (#[trigger] self.entries_view()[j]).0
                        != name@,
            decreases i,
        {
            i = i - 1;
            if str_eq(self.entries[i].0.as_str(), name) {
                proof {
                    lemma_map_of_last(self.entries_view(), name@, i as int);
                }
                return Some(self.entries[i].1.clone());
            }
        }
        proof {
            lemma_map_of_absent(self.entries_view(), name@);
        }
        None
    }

    /// Renders the entries as wire header lines, one `name:value` line per
    /// entry, in entry order.
    pub fn render_lines(&self) -> (r: String)
        ensures
            r@ == spec_header_lines(self.entries_view()),
    {
        let mut out = String::new();
        let mut i: usize = 0;
        proof {
            assert(self.entries_view().take(0) =~= Seq::<(Seq<char>, Seq<char>)>::empty());
        }
        while i < self.entries.len()
            invariant
                i <= self.entries.len(),
                out@ == spec_header_lines(self.entries_view().take(i as int)),
            decreases self.entries.len() - i,
        {
            out.append(self.entries[i].0.as_str());
            out.append(":");
            out.append(self.entries[i].1.as_str());
            out.append("\r\n");
            proof {
                let es = self.entries_view();
                assert(es.take(i + 1).drop_last() =~= es.take(i as int));
                assert(es.take(i + 1).last() == es[i as int]);
            }
            i = i + 1;
        }
        proof {
            assert(self.entries_view().take(self.entries_view().len() as int)
                =~= self.entries_view());
        }
        out
    }
}

impl View for Headers {
    type V = Map<Seq<char>, Seq<char>>;

    closed spec fn view(&self) -> Map<Seq<char>, Seq<char>> {
        map_of(self.entries_view())
    }
}

/// The concatenation of the wire header lines for `es`.
pub open spec fn spec_header_lines(es: Seq<(Seq<char>, Seq<char>)>) -> Seq<char>
    decreases es.len(),
{
    if es.len() == 0 {
        Seq::empty()
    } else {
        spec_header_lines(es.drop_last()) + es.last().0 + ":"@ + es.last().1 + "\r\n"@
    }
}

} // verus!
