//! The payloads collected in a run, by set code, and the combined text
//! that embeds them all.

use crate::text::{join, joined};
use vstd::prelude::*;

verus! {

/// What a run has collected: the payload of each set code, and the codes in
/// the order in which they first came in.
pub struct Results {
    pub order: Seq<Seq<char>>,
    pub payloads: Map<Seq<char>, Seq<char>>,
}

/// The text that opens the combined object.
pub open spec fn object_open() -> Seq<char> {
    "{\n"@
}

/// The text between two members of the combined object.
pub open spec fn member_break() -> Seq<char> {
    ",\n"@
}

/// The text that closes the combined object.
pub open spec fn object_close() -> Seq<char> {
    "\n}"@
}

/// One member of the combined object: the code between double quotes as its
/// key, and the payload as it came, neither of them escaped.
pub open spec fn member_text(code: Seq<char>, payload: Seq<char>) -> Seq<char> {
    "  \""@ + code + "\": "@ + payload
}

impl Results {
    /// Nothing collected yet.
    pub open spec fn empty() -> Results {
        Results { order: Seq::empty(), payloads: Map::empty() }
    }

    /// Each code with a payload is listed once in `order`, and no other.
    pub open spec fn wf(self) -> bool {
        &&& self.order.no_duplicates()
        &&& forall|code: Seq<char>| self.payloads.contains_key(code) <==> self.order.contains(code)
    }

    /// The collection after `payload` came in for `code`: a payload that was
    /// there for the code is replaced, and the code keeps its place.
    pub open spec fn store(self, code: Seq<char>, payload: Seq<char>) -> Results {
        Results {
            order: if self.payloads.contains_key(code) {
                self.order
            } else {
                self.order.push(code)
            },
            payloads: self.payloads.insert(code, payload),
        }
    }

    /// How many set codes have a payload.
    pub open spec fn count(self) -> nat {
        self.payloads.dom().len()
    }

    /// The members of the combined object, in order.
    pub open spec fn members(self) -> Seq<Seq<char>> {
        Seq::new(
            self.order.len(),
            |i: int| member_text(self.order[i], self.payloads[self.order[i]]),
        )
    }

    /// The combined text: one object with a member for each code.
    pub open spec fn combined(self) -> Seq<char> {
        object_open() + joined(self.members(), member_break()) + object_close()
    }
}

struct Entry {
    code: String,
    payload: String,
}

/// The payloads collected so far, by set code.
pub struct ResultMap {
    entries: Vec<Entry>,
}

/// The place of `code` among the codes of `entries`.
spec fn place_of(entries: Seq<Entry>, code: Seq<char>) -> int {
    choose|i: int| 0 <= i < entries.len() && entries[i].code@ == code
}

spec fn listed(entries: Seq<Entry>, code: Seq<char>) -> bool {
    exists|i: int| 0 <= i < entries.len() && #[trigger] entries[i].code@ == code
}

spec fn codes_differ(entries: Seq<Entry>) -> bool {
    forall|i: int, j: int|
        0 <= i < entries.len() && 0 <= j < entries.len() && i != j ==> #[trigger] entries[i].code@
            != #[trigger] entries[j].code@
}

spec fn model_of(entries: Seq<Entry>) -> Results {
    Results {
        order: Seq::new(entries.len(), |i: int| entries[i].code@),
        payloads: Map::new(
            |code: Seq<char>| listed(entries, code),
            |code: Seq<char>| entries[place_of(entries, code)].payload@,
        ),
    }
}

proof fn lemma_model(entries: Seq<Entry>)
    requires
        codes_differ(entries),
    ensures
        model_of(entries).wf(),
        model_of(entries).order.len() == entries.len(),
        forall|i: int|
            0 <= i < entries.len() ==> {
                &&& model_of(entries).order[i] == (#[trigger] entries[i]).code@
                &&& model_of(entries).payloads.contains_key(entries[i].code@)
                &&& model_of(entries).payloads[entries[i].code@] == entries[i].payload@
            },
        forall|code: Seq<char>|
            model_of(entries).payloads.contains_key(code) <==> listed(entries, code),
{
    let m = model_of(entries);
    assert forall|i: int| 0 <= i < entries.len() implies {
        &&& m.order[i] == (#[trigger] entries[i]).code@
        &&& m.payloads.contains_key(entries[i].code@)
        &&& m.payloads[entries[i].code@] == entries[i].payload@
    } by {
        let code = entries[i].code@;
        assert(listed(entries, code));
        assert(place_of(entries, code) == i);
    }
    assert forall|code: Seq<char>| m.payloads.contains_key(code) <==> m.order.contains(code) by {
        if listed(entries, code) {
            let i = place_of(entries, code);
            assert(m.order[i] == code);
        }
        if m.order.contains(code) {
            let i = choose|i: int| 0 <= i < m.order.len() && m.order[i] == code;
            assert(entries[i].code@ == code);
        }
    }
}

/// Replacing the payload of the entry at `at` is storing it for that code.
proof fn lemma_replaced(before: Seq<Entry>, after: Seq<Entry>, at: int)
    requires
        codes_differ(before),
        0 <= at < before.len(),
        after == before.update(at, after[at]),
        after[at].code@ == before[at].code@,
    ensures
        codes_differ(after),
        model_of(after) == model_of(before).store(after[at].code@, after[at].payload@),
        model_of(after).wf(),
{
    let code = after[at].code@;
    let payload = after[at].payload@;
    assert forall|a: int, b: int|
        0 <= a < after.len() && 0 <= b < after.len() && a != b implies #[trigger] after[a].code@
        != #[trigger] after[b].code@ by {
        assert(after[a].code@ == before[a].code@);
        assert(after[b].code@ == before[b].code@);
    }
    lemma_model(before);
    lemma_model(after);
    let want = model_of(before).store(code, payload);
    assert(model_of(after).order == want.order);
    assert forall|c: Seq<char>| listed(after, c) <==> listed(before, c) by {
        if listed(after, c) {
            let k = place_of(after, c);
            assert(before[k].code@ == c);
        }
        if listed(before, c) {
            let k = place_of(before, c);
            assert(after[k].code@ == c);
        }
    }
    assert forall|c: Seq<char>| #[trigger]
        model_of(after).payloads.contains_key(c) implies model_of(after).payloads[c]
        == want.payloads[c] by {
        let k = place_of(after, c);
        assert(after[k].code@ == c);
        if c != code {
            assert(before[k].code@ == c);
            assert(after[k] == before[k]);
        }
    }
    assert(model_of(after).payloads == want.payloads);
}

/// Adding an entry with a code that is not listed is storing its payload.
proof fn lemma_appended(before: Seq<Entry>, after: Seq<Entry>)
    requires
        codes_differ(before),
        after.len() == before.len() + 1,
        after == before.push(after.last()),
        forall|j: int| 0 <= j < before.len() ==> before[j].code@ != after.last().code@,
    ensures
        codes_differ(after),
        model_of(after) == model_of(before).store(after.last().code@, after.last().payload@),
        model_of(after).wf(),
{
    let n = before.len() as int;
    let code = after.last().code@;
    let payload = after.last().payload@;
    assert forall|a: int, b: int|
        0 <= a < after.len() && 0 <= b < after.len() && a != b implies #[trigger] after[a].code@
        != #[trigger] after[b].code@ by {
        if a < n {
            assert(after[a] == before[a]);
        }
        if b < n {
            assert(after[b] == before[b]);
        }
    }
    lemma_model(before);
    lemma_model(after);
    let want = model_of(before).store(code, payload);
    assert(!listed(before, code));
    assert(model_of(after).order == want.order);
    assert forall|c: Seq<char>| listed(after, c) <==> (listed(before, c) || c == code) by {
        if listed(after, c) {
            let k = place_of(after, c);
            if k < n {
                assert(before[k].code@ == c);
            }
        }
        if listed(before, c) {
            let k = place_of(before, c);
            assert(after[k].code@ == c);
        }
        if c == code {
            assert(after[n].code@ == c);
        }
    }
    assert forall|c: Seq<char>| #[trigger]
        model_of(after).payloads.contains_key(c) implies model_of(after).payloads[c]
        == want.payloads[c] by {
        let k = place_of(after, c);
        assert(after[k].code@ == c);
        if k < n {
            assert(after[k] == before[k]);
        }
    }
    assert(model_of(after).payloads == want.payloads);
}

impl View for ResultMap {
    type V = Results;

    closed spec fn view(&self) -> Results {
        model_of(self.entries@)
    }
}

impl ResultMap {
    #[verifier::type_invariant]
    spec fn codes_listed_once(self) -> bool {
        codes_differ(self.entries@)
    }

    /// A collection without payloads.
    pub fn new() -> (results: ResultMap)
        ensures
            results@ == Results::empty(),
            results@.wf(),
    {
        let results = ResultMap { entries: Vec::new() };
        proof {
            lemma_model(results.entries@);
            assert(results@.order == Seq::<Seq<char>>::empty());
            assert(results@.payloads == Map::<Seq<char>, Seq<char>>::empty());
        }
        results
    }

    /// Stores `payload` for `code`. A payload that the code had is replaced.
    #[verifier::loop_isolation(false)]
    pub fn insert(&mut self, code: String, payload: String)
        ensures
            final(self)@ == old(self)@.store(code@, payload@),
            final(self)@.wf(),
    {
        proof {
            use_type_invariant(&*self);
            lemma_model(self.entries@);
        }
        let ghost before = self.entries@;
        // The entries are changed outside `self` and put back in one step.
        let mut entries: Vec<Entry> = Vec::new();
        core::mem::swap(&mut self.entries, &mut entries);
        let n = entries.len();
        let mut i: usize = 0;
        while i < n
            invariant
                i <= n,
                n == entries.len(),
                entries@ == before,
                forall|j: int| 0 <= j < i ==> before[j].code@ != code@,
            decreases n - i,
        {
            if entries[i].code == code {
                entries.set(i, Entry { code, payload });
                proof {
                    lemma_replaced(before, entries@, i as int);
                }
                self.entries = entries;
                return ;
            }
            i += 1;
        }
        entries.push(Entry { code, payload });
        proof {
            lemma_appended(before, entries@);
        }
        self.entries = entries;
    }

    /// How many set codes have a payload.
    pub fn len(&self) -> (n: usize)
        ensures
            n == self@.count(),
            self@.wf(),
    {
        proof {
            use_type_invariant(self);
            lemma_model(self.entries@);
            lemma_count_is_order_len(self@);
        }
        self.entries.len()
    }

    /// Whether no set code has a payload.
    pub fn is_empty(&self) -> (b: bool)
        ensures
            b == (self@.count() == 0),
            self@.wf(),
    {
        self.len() == 0
    }

    /// The payload stored for `code`, if there is one.
    #[verifier::loop_isolation(false)]
    pub fn get(&self, code: &str) -> (payload: Option<&String>)
        ensures
            self@.wf(),
            match payload {
                Some(p) => self@.payloads.contains_key(code@) && p@ == self@.payloads[code@],
                None => !self@.payloads.contains_key(code@),
            },
    {
        proof {
            use_type_invariant(self);
            lemma_model(self.entries@);
        }
        let wanted = code.to_owned();
        let mut i: usize = 0;
        while i < self.entries.len()
            invariant
                i <= self.entries.len(),
                wanted@ == code@,
                forall|j: int| 0 <= j < i ==> self.entries@[j].code@ != code@,
            decreases self.entries.len() - i,
        {
            if self.entries[i].code == wanted {
                return Some(&self.entries[i].payload);
            }
            i += 1;
        }
        None
    }

    /// The set codes that have a payload, in the order in which they first
    /// came in.
    #[verifier::loop_isolation(false)]
    pub fn codes(&self) -> (codes: Vec<String>)
        ensures
            self@.wf(),
            codes.deep_view() == self@.order,
    {
        proof {
            use_type_invariant(self);
            lemma_model(self.entries@);
        }
        let mut codes: Vec<String> = Vec::new();
        let mut i: usize = 0;
        while i < self.entries.len()
            invariant
                i <= self.entries.len(),
                codes.deep_view() == self@.order.take(i as int),
                forall|j: int|
                    0 <= j < self.entries.len() ==> self@.order[j] == (
                    #[trigger] self.entries@[j]).code@,
                self@.order.len() == self.entries.len(),
            decreases self.entries.len() - i,
        {
            codes.push(self.entries[i].code.clone());
            i += 1;
        }
        assert(self@.order.take(self.entries.len() as int) == self@.order);
        codes
    }

    /// The combined text: `{`, a line for each set code that holds two
    /// spaces, the code between double quotes, a colon, a space and the
    /// payload as it came, a comma between each two lines, and `}` on a line
    /// of its own. Neither code nor payload is escaped.
    #[verifier::loop_isolation(false)]
    pub fn combined_text(&self) -> (text: String)
        ensures
            self@.wf(),
            text@ == self@.combined(),
    {
        proof {
            use_type_invariant(self);
            lemma_model(self.entries@);
        }
        let mut members: Vec<String> = Vec::new();
        let mut i: usize = 0;
        while i < self.entries.len()
            invariant
                i <= self.entries.len(),
                members.deep_view() == self@.members().take(i as int),
                self@.order.len() == self.entries.len(),
                forall|j: int|
                    0 <= j < self.entries.len() ==> {
                        &&& self@.order[j] == (#[trigger] self.entries@[j]).code@
                        &&& self@.payloads[self.entries@[j].code@] == self.entries@[j].payload@
                    },
            decreases self.entries.len() - i,
        {
            let mut member = "  \"".to_owned();
            member.append(self.entries[i].code.as_str());
            member.append("\": ");
            member.append(self.entries[i].payload.as_str());
            members.push(member);
            i += 1;
        }
        assert(self@.members().take(self.entries.len() as int) == self@.members());
        let mut text = "{\n".to_owned();
        text.append(join(&members, ",\n").as_str());
        text.append("\n}");
        text
    }
}

/// The number of payloads is the number of codes listed.
pub proof fn lemma_count_is_order_len(r: Results)
    requires
        r.wf(),
    ensures
        r.count() == r.order.len(),
        r.payloads.dom().finite(),
{
    r.order.unique_seq_to_set();
    assert(r.payloads.dom() == r.order.to_set());
}

/// Storing a payload keeps the collection well formed, makes the payload
/// the one of its code, and touches no other code: a code that comes again
/// replaces its payload and adds nothing to the count.
pub proof fn lemma_store(r: Results, code: Seq<char>, payload: Seq<char>)
    requires
        r.wf(),
    ensures
        r.store(code, payload).wf(),
        r.store(code, payload).payloads.contains_key(code),
        r.store(code, payload).payloads[code] == payload,
        forall|other: Seq<char>|
            other != code ==> {
                &&& r.store(code, payload).payloads.contains_key(other)
                    == r.payloads.contains_key(other)
                &&& r.payloads.contains_key(other) ==> r.store(code, payload).payloads[other]
                    == r.payloads[other]
            },
        r.store(code, payload).count() == if r.payloads.contains_key(code) {
            r.count()
        } else {
            r.count() + 1
        },
{
    let s = r.store(code, payload);
    if r.payloads.contains_key(code) {
        assert(s.wf());
        assert(s.payloads.dom() == r.payloads.dom());
    } else {
        assert(!r.order.contains(code));
        assert forall|k: Seq<char>| s.payloads.contains_key(k) <==> s.order.contains(k) by {
            if s.order.contains(k) {
                let i = choose|i: int| 0 <= i < s.order.len() && s.order[i] == k;
                if i < r.order.len() {
                    assert(r.order[i] == k);
                }
            }
            if r.order.contains(k) {
                let i = choose|i: int| 0 <= i < r.order.len() && r.order[i] == k;
                assert(s.order[i] == k);
            }
            if k == code {
                assert(s.order[r.order.len() as int] == k);
            }
        }
        assert(s.order.no_duplicates()) by {
            assert forall|i: int, j: int|
                0 <= i < s.order.len() && 0 <= j < s.order.len() && i != j implies s.order[i]
                != s.order[j] by {
                if i < r.order.len() {
                    assert(r.order.contains(s.order[i]));
                }
                if j < r.order.len() {
                    assert(r.order.contains(s.order[j]));
                }
            }
        }
        lemma_count_is_order_len(r);
        lemma_count_is_order_len(s);
    }
}

/// The combined text holds each payload as it came: the member of a code is
/// a contiguous part of the text, and the payload is the end of that member.
pub proof fn lemma_combined_holds_member(r: Results, i: int) -> (around: (Seq<char>, Seq<char>))
    requires
        0 <= i < r.order.len(),
    ensures
        r.combined() == around.0 + member_text(r.order[i], r.payloads[r.order[i]]) + around.1,
{
    let (before, after) = lemma_joined_holds_part(r.members(), member_break(), i);
    let member = member_text(r.order[i], r.payloads[r.order[i]]);
    assert(r.members()[i] == member);
    let left = object_open() + before;
    let right = after + object_close();
    assert(r.combined() == left + member + right);
    (left, right)
}

proof fn lemma_joined_holds_part(parts: Seq<Seq<char>>, sep: Seq<char>, i: int) -> (around: (
    Seq<char>,
    Seq<char>,
))
    requires
        0 <= i < parts.len(),
    ensures
        joined(parts, sep) == around.0 + parts[i] + around.1,
    decreases parts.len(),
{
    let blank = Seq::<char>::empty();
    if parts.len() == 1 {
        assert(joined(parts, sep) == blank + parts[0] + blank);
        (blank, blank)
    } else if i == parts.len() - 1 {
        let left = joined(parts.drop_last(), sep) + sep;
        assert(joined(parts, sep) == left + parts[i] + blank);
        (left, blank)
    } else {
        let (before, after) = lemma_joined_holds_part(parts.drop_last(), sep, i);
        let right = after + sep + parts.last();
        assert(parts.drop_last()[i] == parts[i]);
        assert(joined(parts, sep) == before + parts[i] + right);
        (before, right)
    }
}

} // verus!
