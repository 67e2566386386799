//! The record of what has been answered already, and its form on disk: one
//! identifier per line.

use vstd::hash_set::StringHashSet;
use vstd::prelude::*;
use vstd::std_specs::iter::IteratorSpec;
use vstd::string::StringExecFns;

verus! {

/// `String::push`, which appends a character to the end of a string. Trusted:
/// this is what the standard library documents of it.
pub assume_specification[ String::push ](s: &mut String, c: char)
    ensures
        final(s)@ == old(s)@.push(c),
;

/// The position of the first line feed in `text`, or its length if there is
/// none.
pub open spec fn first_newline(text: Seq<char>) -> int
    decreases text.len(),
{
    if text.len() == 0 || text[0] == '\n' {
        0
    } else {
        1 + first_newline(text.drop_first())
    }
}

/// A line without the carriage return that may end it.
pub open spec fn strip_cr(line: Seq<char>) -> Seq<char> {
    if line.len() > 0 && line.last() == '\r' {
        line.drop_last()
    } else {
        line
    }
}

/// The lines of a text. A line ends at a line feed, or at a carriage return
/// directly followed by one; the last line may do without. The line endings
/// are not part of the lines.
pub open spec fn split_lines(text: Seq<char>) -> Seq<Seq<char>>
    decreases text.len(),
{
    if text.len() == 0 {
        Seq::empty()
    } else {
        let k = first_newline(text);
        if 0 <= k < text.len() {
            seq![strip_cr(text.take(k))] + split_lines(text.skip(k + 1))
        } else {
            seq![text]
        }
    }
}

/// The text that holds each entry on a line of its own, ended by a line feed.
pub open spec fn join_lines(entries: Seq<Seq<char>>) -> Seq<char>
    decreases entries.len(),
{
    if entries.len() == 0 {
        Seq::empty()
    } else {
        entries.first() + seq!['\n'] + join_lines(entries.drop_first())
    }
}

/// The lines without their repetitions: of equal lines the first one stays.
pub open spec fn distinct(lines: Seq<Seq<char>>) -> Seq<Seq<char>>
    decreases lines.len(),
{
    if lines.len() == 0 {
        Seq::empty()
    } else {
        let before = distinct(lines.drop_last());
        if before.contains(lines.last()) {
            before
        } else {
            before.push(lines.last())
        }
    }
}

/// An identifier that survives being written on a line and read back: it has
/// no line feed in it and does not end in a carriage return.
pub open spec fn line_safe(id: Seq<char>) -> bool {
    &&& !id.contains('\n')
    &&& !(id.len() > 0 && id.last() == '\r')
}

/// Where a text without a line feed is followed by more text, the first line
/// feed is the first one of what follows.
pub proof fn lemma_first_newline_after(head: Seq<char>, tail: Seq<char>)
    requires
        !head.contains('\n'),
    ensures
        first_newline(head + tail) == head.len() + first_newline(tail),
    decreases head.len(),
{
    if head.len() > 0 {
        let rest = head.drop_first();
        assert((head + tail).drop_first() == rest + tail);
        lemma_first_newline_after(rest, tail);
    }
}

/// A line that is ended by a line feed is the first line of the text, and the
/// other lines are those of what follows the line feed.
pub proof fn lemma_split_first_line(line: Seq<char>, rest: Seq<char>)
    requires
        !line.contains('\n'),
    ensures
        split_lines(line + seq!['\n'] + rest) == seq![strip_cr(line)] + split_lines(rest),
{
    let text = line + seq!['\n'] + rest;
    assert(text == line + (seq!['\n'] + rest));
    lemma_first_newline_after(line, seq!['\n'] + rest);
    assert(text.take(line.len() as int) == line);
    assert(text.skip(line.len() as int + 1) == rest);
}

/// A text without a line feed is one line, or none if it is empty.
pub proof fn lemma_split_last_line(line: Seq<char>)
    requires
        !line.contains('\n'),
    ensures
        split_lines(line) == if line.len() == 0 {
            Seq::<Seq<char>>::empty()
        } else {
            seq![line]
        },
{
    if line.len() > 0 {
        lemma_first_newline_after(line, Seq::empty());
    }
}

/// Adding an entry adds its line at the end.
pub proof fn lemma_join_push(entries: Seq<Seq<char>>, entry: Seq<char>)
    ensures
        join_lines(entries.push(entry)) == join_lines(entries) + entry + seq!['\n'],
    decreases entries.len(),
{
    let all = entries.push(entry);
    if entries.len() == 0 {
        assert(join_lines(all.drop_first()) == Seq::<char>::empty());
    } else {
        assert(all.drop_first() == entries.drop_first().push(entry));
        lemma_join_push(entries.drop_first(), entry);
    }
}

/// Reading back what was written gives the entries that were written, as long
/// as each of them can stand on a line.
pub proof fn lemma_split_join(entries: Seq<Seq<char>>)
    requires
        forall|i: int| 0 <= i < entries.len() ==> line_safe(#[trigger] entries[i]),
    ensures
        split_lines(join_lines(entries)) == entries,
    decreases entries.len(),
{
    if entries.len() > 0 {
        let rest = entries.drop_first();
        lemma_split_join(rest);
        lemma_split_first_line(entries.first(), join_lines(rest));
    }
}

/// What `distinct` keeps: every line, each once.
pub proof fn lemma_distinct(lines: Seq<Seq<char>>)
    ensures
        distinct(lines).no_duplicates(),
        distinct(lines).to_set() == lines.to_set(),
        lines.no_duplicates() ==> distinct(lines) == lines,
    decreases lines.len(),
{
    if lines.len() > 0 {
        let init = lines.drop_last();
        let last = lines.last();
        lemma_distinct(init);
        let before = distinct(init);
        assert forall|s: Seq<char>| lines.to_set().contains(s) <==> (init.to_set().contains(s)
            || s == last) by {
            if lines.to_set().contains(s) {
                let i = choose|i: int| 0 <= i < lines.len() && lines[i] == s;
                if i < lines.len() - 1 {
                    assert(init[i] == s);
                }
            }
        }
        if !before.contains(last) {
            let after = before.push(last);
            assert forall|s: Seq<char>| after.to_set().contains(s) <==> (before.to_set().contains(
                s,
            ) || s == last) by {
                if before.to_set().contains(s) {
                    let i = choose|i: int| 0 <= i < before.len() && before[i] == s;
                    assert(after[i] == s);
                }
                if s == last {
                    assert(after[after.len() - 1] == s);
                }
            }
        }
    }
}

/// Splits a text into its lines.
pub fn lines_of(text: &str) -> (lines: Vec<String>)
    ensures
        lines.deep_view() == split_lines(text@),
{
    let mut lines: Vec<String> = Vec::new();
    let mut cur = String::new();
    // A carriage return is held back until it is known whether a line feed
    // follows it.
    let mut pending_cr = false;
    let ghost mut partial: Seq<char> = Seq::empty();
    let ghost mut consumed: int = 0;
    let mut chars = text.chars();
    loop
        invariant
            0 <= consumed <= text@.len(),
            chars.remaining() == text@.skip(consumed),
            chars.obeys_prophetic_iter_laws(),
            partial == cur@ + if pending_cr {
                seq!['\r']
            } else {
                Seq::<char>::empty()
            },
            !partial.contains('\n'),
            pending_cr || cur@.len() == 0 || cur@.last() != '\r',
            split_lines(text@) == lines.deep_view() + split_lines(partial + text@.skip(consumed)),
        ensures
            consumed == text@.len(),
            partial == cur@ + if pending_cr {
                seq!['\r']
            } else {
                Seq::<char>::empty()
            },
            !partial.contains('\n'),
            split_lines(text@) == lines.deep_view() + split_lines(partial),
        decreases text@.len() - consumed,
    {
        let ghost rest = text@.skip(consumed);
        let next = chars.next();
        let c = match next {
            Some(c) => c,
            None => {
                break ;
            },
        };
        if c == '\n' {
            proof {
                lemma_split_first_line(partial, text@.skip(consumed + 1));
                assert(partial + rest == partial + seq!['\n'] + text@.skip(consumed + 1));
                assert(strip_cr(partial) == cur@);
                assert(Seq::<char>::empty() + text@.skip(consumed + 1) == text@.skip(
                    consumed + 1,
                ));
            }
            lines.push(cur);
            cur = String::new();
            pending_cr = false;
            proof {
                partial = Seq::empty();
            }
        } else {
            if pending_cr {
                cur.push('\r');
            }
            if c == '\r' {
                pending_cr = true;
            } else {
                pending_cr = false;
                cur.push(c);
            }
            proof {
                let longer = partial.push(c);
                assert(longer + text@.skip(consumed + 1) == partial + rest);
                assert(!longer.contains('\n'));
                partial = longer;
            }
        }
        proof {
            consumed = consumed + 1;
        }
    }
    proof {
        lemma_split_last_line(partial);
    }
    if pending_cr {
        cur.push('\r');
    }
    assert(cur@ == partial);
    if !cur.as_str().is_empty() {
        lines.push(cur);
    }
    lines
}

/// The identifiers that have been answered, each once, in the order in which
/// they were recorded.
pub struct Ledger {
    index: StringHashSet,
    order: Vec<String>,
}

impl View for Ledger {
    type V = Set<Seq<char>>;

    open spec fn view(&self) -> Set<Seq<char>> {
        self.entries().to_set()
    }
}

impl Ledger {
    #[verifier::type_invariant]
    spec fn consistent(self) -> bool {
        &&& self.index@ == self.order.deep_view().to_set()
        &&& self.order.deep_view().no_duplicates()
    }

    /// The identifiers in the order in which they were recorded.
    pub closed spec fn entries(&self) -> Seq<Seq<char>> {
        self.order.deep_view()
    }

    /// A ledger with nothing in it.
    pub fn new() -> (ledger: Ledger)
        ensures
            ledger.entries() == Seq::<Seq<char>>::empty(),
    {
        let index = StringHashSet::new();
        let order: Vec<String> = Vec::new();
        assert(order.deep_view().to_set() == Set::<Seq<char>>::empty());
        Ledger { index, order }
    }

    /// The ledger that a stored text stands for: its lines, each once. Where
    /// there is no text, because nothing was ever stored or the store cannot be
    /// read, the ledger is empty.
    pub fn load(source: Option<&str>) -> (ledger: Ledger)
        ensures
            ledger.entries() == match source {
                Some(text) => distinct(split_lines(text@)),
                None => Seq::<Seq<char>>::empty(),
            },
    {
        let mut ledger = Ledger::new();
        let text = match source {
            Some(text) => text,
            None => return ledger,
        };
        let lines = lines_of(text);
        let mut i: usize = 0;
        while i < lines.len()
            invariant
                i <= lines.len(),
                ledger.entries() == distinct(lines.deep_view().take(i as int)),
            decreases lines.len() - i,
        {
            proof {
                let upto = lines.deep_view().take(i + 1);
                assert(upto.drop_last() == lines.deep_view().take(i as int));
            }
            ledger.insert(lines[i].as_str());
            i += 1;
        }
        assert(lines.deep_view().take(lines.len() as int) == lines.deep_view());
        ledger
    }

    /// How many identifiers are recorded.
    pub fn len(&self) -> (n: usize)
        ensures
            n == self.entries().len(),
            n == self@.len(),
    {
        proof {
            use_type_invariant(self);
            self.order.deep_view().unique_seq_to_set();
        }
        self.order.len()
    }

    /// Whether `id` has been recorded.
    pub fn contains(&self, id: &str) -> (found: bool)
        ensures
            found == self@.contains(id@),
    {
        proof {
            use_type_invariant(self);
        }
        self.index.contains(id)
    }

    /// Records `id`. Recording an identifier again changes nothing.
    pub fn insert(&mut self, id: &str)
        ensures
            final(self).entries() == if old(self)@.contains(id@) {
                old(self).entries()
            } else {
                old(self).entries().push(id@)
            },
            final(self)@ == old(self)@.insert(id@),
    {
        proof {
            use_type_invariant(&*self);
        }
        if self.index.contains(id) {
            return ;
        }
        // The lookup table and the list change together: the ledger is taken
        // apart, both are extended, and it is put together again.
        let mut taken = Ledger::new();
        std::mem::swap(self, &mut taken);
        proof {
            use_type_invariant(&taken);
        }
        let Ledger { index, order } = taken;
        let mut index = index;
        let mut order = order;
        let ghost before = order.deep_view();
        order.push(String::from_str(id));
        index.insert(String::from_str(id));
        proof {
            let after = order.deep_view();
            assert(after == before.push(id@));
            assert forall|s: Seq<char>| after.to_set().contains(s) <==> (before.to_set().contains(
                s,
            ) || s == id@) by {
                if before.to_set().contains(s) {
                    let k = choose|k: int| 0 <= k < before.len() && before[k] == s;
                    assert(after[k] == s);
                }
                if s == id@ {
                    assert(after[after.len() - 1] == s);
                }
            }
            assert(after.to_set() == before.to_set().insert(id@));
        }
        *self = Ledger { index, order };
    }

    /// The text to store: every identifier on a line of its own, in the order
    /// in which they were recorded. It replaces what was stored before. No
    /// identifier is written twice.
    pub fn save(&self) -> (text: String)
        ensures
            text@ == join_lines(self.entries()),
            self.entries().no_duplicates(),
    {
        proof {
            use_type_invariant(self);
        }
        let mut text = String::new();
        let mut i: usize = 0;
        while i < self.order.len()
            invariant
                i <= self.order.len(),
                text@ == join_lines(self.order.deep_view().take(i as int)),
            decreases self.order.len() - i,
        {
            proof {
                let upto = self.order.deep_view().take(i as int);
                lemma_join_push(upto, self.order[i as int]@);
                assert(upto.push(self.order[i as int]@) == self.order.deep_view().take(i + 1));
            }
            text.append(self.order[i].as_str());
            text.push('\n');
            i += 1;
        }
        assert(self.order.deep_view().take(self.order.len() as int) == self.order.deep_view());
        text
    }
}

/// Storing a ledger and loading it again gives the same identifiers in the
/// same order, provided each of them can stand on a line. Two ledgers that
/// hold the same identifiers therefore load as the same set, in whatever
/// order each recorded them.
///
/// `first` and `second` are the entries of the two ledgers: `save` writes
/// `join_lines` of the entries, none twice, and `load` reads `distinct` of
/// `split_lines` of the text.
pub proof fn lemma_save_load_round_trip(first: Seq<Seq<char>>, second: Seq<Seq<char>>)
    requires
        first.no_duplicates(),
        second.no_duplicates(),
        first.to_set() == second.to_set(),
        forall|id: Seq<char>| first.to_set().contains(id) ==> line_safe(id),
    ensures
        distinct(split_lines(join_lines(first))) == first,
        distinct(split_lines(join_lines(second))) == second,
        distinct(split_lines(join_lines(first))).to_set() == distinct(
            split_lines(join_lines(second)),
        ).to_set(),
{
    lemma_split_join(first);
    lemma_split_join(second);
    lemma_distinct(first);
    lemma_distinct(second);
}

} // verus!
