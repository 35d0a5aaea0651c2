//! The peer network's bookkeeping: which endpoint ids this run knows, where
//! each came from, which ones a dial reached, and the `peers.txt` file that
//! keeps the ones saved from Settings.
//!
//! Ids are held as their canonical text (64 lowercase hex digits, what iroh
//! prints for an endpoint id), in ascending order: the order of the key bytes,
//! which the hex text preserves. Dialing, mDNS and the file itself stay with
//! the caller, which hands each outcome back here.
use crate::text::{
    is_ascii_text, is_blank, is_white_space, lemma_split_text_concat, lemma_split_text_nonempty,
    lemma_split_text_whole, lemma_text_lt_asymmetric, lemma_text_lt_irreflexive,
    lemma_text_lt_total, lemma_text_lt_transitive, push_char, push_text, same_text, split_text,
    split_text_exec, text_less, text_lt, trim, trim_end, trim_start, trimmed, views_of,
    decimal, parse_unsigned, push_decimal, unsigned_text_value,
};
use vstd::prelude::*;

verus! {

// ── Endpoint ids ─────────────────────────────────────────────────────────────
/// A lowercase hexadecimal digit.
pub open spec fn is_hex_lower(c: char) -> bool {
    ('0' <= c && c <= '9') || ('a' <= c && c <= 'f')
}

/// The canonical text of an endpoint id: 64 lowercase hex digits.
pub open spec fn is_canonical_id(s: Seq<char>) -> bool {
    s.len() == 64 && forall|i: int| 0 <= i < s.len() ==> is_hex_lower(#[trigger] s[i])
}

/// What iroh's `EndpointId::from_str` followed by `to_string` gives for a
/// text: the canonical id text, or nothing when the text is not an id.
pub uninterp spec fn endpoint_id_text(raw: Seq<char>) -> Option<Seq<char>>;

/// A canonical id text that iroh reads back as itself.
pub open spec fn is_endpoint_id(s: Seq<char>) -> bool {
    is_canonical_id(s) && endpoint_id_text(s) == Some(s)
}

/// A character of the RFC 4648 base32 alphabet, in either case.
pub open spec fn is_base32_char(c: char) -> bool {
    ('A' <= c && c <= 'Z') || ('a' <= c && c <= 'z') || ('2' <= c && c <= '7')
}

/// The shapes of text iroh can read as an id: 64 lowercase hex digits, or
/// 52 base32 characters (32 bytes without padding).
pub open spec fn has_id_shape(raw: Seq<char>) -> bool {
    ||| raw.len() == 64 && forall|i: int| 0 <= i < raw.len() ==> is_hex_lower(#[trigger] raw[i])
    ||| raw.len() == 52 && forall|i: int| 0 <= i < raw.len() ==> is_base32_char(#[trigger] raw[i])
}

/// `EndpointId::from_str`, then the id's `Display` (`HEXLOWER` of the 32
/// key bytes). The text is read as `HEXLOWER` when it is 64 bytes long, else
/// upper-cased and read as unpadded base32, which must give 32 bytes; the
/// bytes must be an ed25519 curve point. Claimed: the result is a function
/// of the text; there is one only for text of one of those two shapes; it
/// is 64 lowercase hex digits, and parsing it again gives the same key,
/// hence the same text. Which texts of those shapes are keys is left unsaid.
#[verifier::external_body]
fn endpoint_id_of(raw: &str) -> (r: Option<String>)
    ensures
        r is Some <==> endpoint_id_text(raw@) is Some,
        r is Some ==> has_id_shape(raw@),
        r matches Some(t) ==> endpoint_id_text(raw@) == Some(t@) && is_endpoint_id(t@),
{
    match raw.parse::<iroh::EndpointId>() {
        Ok(id) => Some(id.to_string()),
        Err(_) => None,
    }
}

// ── Ordered id sets ──────────────────────────────────────────────────────────
/// Strictly ascending in the order of `str`.
pub open spec fn strictly_sorted(s: Seq<Seq<char>>) -> bool {
    forall|i: int, j: int| 0 <= i < j < s.len() ==> text_lt(#[trigger] s[i], #[trigger] s[j])
}

/// The order of `str` is a strict total order.
proof fn lemma_text_order()
    ensures
        forall|a: Seq<char>| !(#[trigger] text_lt(a, a)),
        forall|a: Seq<char>, b: Seq<char>, c: Seq<char>|
            #[trigger] text_lt(a, b) && #[trigger] text_lt(b, c) ==> text_lt(a, c),
        forall|a: Seq<char>, b: Seq<char>| a == b || #[trigger] text_lt(a, b) || text_lt(b, a),
        forall|a: Seq<char>, b: Seq<char>| #[trigger] text_lt(a, b) ==> !text_lt(b, a),
{
    assert forall|a: Seq<char>| !(#[trigger] text_lt(a, a)) by {
        lemma_text_lt_irreflexive(a);
    }
    assert forall|a: Seq<char>, b: Seq<char>, c: Seq<char>|
        #[trigger] text_lt(a, b) && #[trigger] text_lt(b, c) implies text_lt(a, c) by {
        lemma_text_lt_transitive(a, b, c);
    }
    assert forall|a: Seq<char>, b: Seq<char>| a == b || #[trigger] text_lt(a, b) || text_lt(
        b,
        a,
    ) by {
        lemma_text_lt_total(a, b);
    }
    assert forall|a: Seq<char>, b: Seq<char>| #[trigger] text_lt(a, b) implies !text_lt(b, a) by {
        lemma_text_lt_asymmetric(a, b);
    }
}

/// A set of endpoint ids in ascending order, each once.
///
/// The ids are kept as their canonical text (64 lowercase hex digits),
/// since the key type of the network crate is opaque here. vstd specifies
/// `BTreeSet`, but through `String` keys it proves next to nothing of the
/// contents or their order; a sorted `Vec` with the invariant `wf` (strictly
/// ascending, every member an id) states both, and the text order of
/// canonical ids is the byte order of the keys, so the set iterates as the
/// keys would.
pub struct IdSet {
    items: Vec<String>,
}

impl IdSet {
    /// The ids, in ascending order.
    pub closed spec fn ids(&self) -> Seq<Seq<char>> {
        views_of(self.items@)
    }

    /// Ascending without repeats, and every member an endpoint id.
    pub open spec fn wf(&self) -> bool {
        &&& strictly_sorted(self.ids())
        &&& forall|k: int| 0 <= k < self.ids().len() ==> is_endpoint_id(#[trigger] self.ids()[k])
    }

    /// The ids as a set.
    pub open spec fn members(&self) -> Set<Seq<char>> {
        self.ids().to_set()
    }

    pub fn new() -> (r: IdSet)
        ensures
            r.wf(),
            r.ids() == Seq::<Seq<char>>::empty(),
    {
        let r = IdSet { items: Vec::new() };
        assert(r.ids() =~= Seq::<Seq<char>>::empty());
        r
    }

    pub fn len(&self) -> (r: usize)
        ensures
            r == self.ids().len(),
    {
        self.items.len()
    }

    /// Whether `id` is in the set.
    pub fn contains(&self, id: &str) -> (r: bool)
        ensures
            r == self.ids().contains(id@),
    {
        let n = self.items.len();
        let mut k: usize = 0;
        while k < n
            invariant
                n == self.ids().len(),
                k <= n,
                forall|j: int| 0 <= j < k ==> self.ids()[j] != id@,
            decreases n - k,
        {
            assert(self.ids()[k as int] == self.items@[k as int]@);
            if same_text(self.items[k].as_str(), id) {
                return true;
            }
            k = k + 1;
        }
        false
    }

    /// Adds `id`; `true` when it was not there yet.
    pub fn insert(&mut self, id: String) -> (r: bool)
        requires
            old(self).wf(),
            is_endpoint_id(id@),
        ensures
            final(self).wf(),
            final(self).members() == old(self).members().insert(id@),
            r == !old(self).ids().contains(id@),
    {
        proof {
            lemma_text_order();
        }
        let ghost s = self.ids();
        let n = self.items.len();
        let mut k: usize = 0;
        while k < n && text_less(self.items[k].as_str(), id.as_str())
            invariant
                n == s.len(),
                k <= n,
                s == self.ids(),
                forall|j: int| 0 <= j < k ==> text_lt(#[trigger] s[j], id@),
            decreases n - k,
        {
            assert(s[k as int] == self.items@[k as int]@);
            k = k + 1;
        }
        if k < n {
            assert(s[k as int] == self.items@[k as int]@);
            if same_text(self.items[k].as_str(), id.as_str()) {
                assert(s.to_set().insert(id@) =~= s.to_set());
                return false;
            }
        }
        // every id before `k` is smaller than `id`, every one from `k` on is larger
        assert forall|j: int| k <= j < n implies text_lt(id@, #[trigger] s[j]) by {
            if j > k {
                assert(text_lt(s[k as int], s[j]));
            }
        }
        assert(!s.contains(id@)) by {
            if s.contains(id@) {
                let j = choose|j: int| 0 <= j < s.len() && s[j] == id@;
                if j < k {
                    assert(text_lt(s[j], id@));
                } else {
                    assert(text_lt(id@, s[j]));
                }
            }
        }
        self.items.insert(k, id);
        proof {
            let t = self.ids();
            assert(t =~= s.insert(k as int, id@));
            assert forall|i: int, j: int| 0 <= i < j < t.len() implies text_lt(
                #[trigger] t[i],
                #[trigger] t[j],
            ) by {
                if j < k {
                } else if j == k {
                    assert(t[i] == s[i]);
                } else if i < k {
                    assert(t[j] == s[j - 1]);
                    assert(text_lt(s[i], id@));
                    assert(text_lt(id@, s[j - 1]));
                } else if i == k {
                    assert(t[j] == s[j - 1]);
                } else {
                    assert(t[i] == s[i - 1] && t[j] == s[j - 1]);
                }
            }
            assert forall|x: Seq<char>| t.to_set().contains(x) <==> s.to_set().insert(
                id@,
            ).contains(x) by {
                if t.contains(x) {
                    let j = choose|j: int| 0 <= j < t.len() && t[j] == x;
                    if j < k {
                        assert(s[j] == x);
                    } else if j > k {
                        assert(s[j - 1] == x);
                    }
                }
                if s.contains(x) {
                    let j = choose|j: int| 0 <= j < s.len() && s[j] == x;
                    if j < k {
                        assert(t[j] == x);
                    } else {
                        assert(t[j + 1] == x);
                    }
                }
                if x == id@ {
                    assert(t[k as int] == x);
                }
            }
            assert(t.to_set() =~= s.to_set().insert(id@));
        }
        true
    }

    /// Takes `id` out, if it is there.
    pub fn remove(&mut self, id: &str)
        requires
            old(self).wf(),
        ensures
            final(self).wf(),
            final(self).members() == old(self).members().remove(id@),
    {
        proof {
            lemma_text_order();
        }
        let ghost s = self.ids();
        let n = self.items.len();
        let mut k: usize = 0;
        while k < n && !same_text(self.items[k].as_str(), id)
            invariant
                n == s.len(),
                k <= n,
                s == self.ids(),
                forall|j: int| 0 <= j < k ==> s[j] != id@,
            decreases n - k,
        {
            assert(s[k as int] == self.items@[k as int]@);
            k = k + 1;
        }
        if k < n {
            assert(s[k as int] == self.items@[k as int]@);
            self.items.remove(k);
            proof {
                let t = self.ids();
                assert(t =~= s.remove(k as int));
                assert forall|i: int, j: int| 0 <= i < j < t.len() implies text_lt(
                    #[trigger] t[i],
                    #[trigger] t[j],
                ) by {
                    if i < k && j >= k {
                        assert(t[j] == s[j + 1]);
                    } else if i >= k {
                        assert(t[i] == s[i + 1] && t[j] == s[j + 1]);
                    }
                }
                assert forall|x: Seq<char>| t.to_set().contains(x) <==> s.to_set().remove(
                    id@,
                ).contains(x) by {
                    if t.contains(x) {
                        let j = choose|j: int| 0 <= j < t.len() && t[j] == x;
                        if j < k {
                            assert(s[j] == x);
                            assert(text_lt(s[j], s[k as int]));
                        } else {
                            assert(s[j + 1] == x);
                            assert(text_lt(s[k as int], s[j + 1]));
                        }
                    }
                    if s.contains(x) && x != id@ {
                        let j = choose|j: int| 0 <= j < s.len() && s[j] == x;
                        if j < k {
                            assert(t[j] == x);
                        } else {
                            assert(j != k);
                            assert(t[j - 1] == x);
                        }
                    }
                }
                assert(t.to_set() =~= s.to_set().remove(id@));
            }
        } else {
            assert(!s.contains(id@));
            assert(s.to_set().remove(id@) =~= s.to_set());
        }
    }

    /// The ids, in ascending order.
    pub fn to_vec(&self) -> (r: Vec<String>)
        ensures
            views_of(r@) == self.ids(),
    {
        let n = self.items.len();
        let mut r: Vec<String> = Vec::new();
        let mut k: usize = 0;
        while k < n
            invariant
                n == self.ids().len(),
                n == self.items@.len(),
                k <= n,
                r@.len() == k,
                forall|i: int| 0 <= i < k ==> (#[trigger] r@[i])@ == self.items@[i]@,
            decreases n - k,
        {
            r.push(self.items[k].clone());
            k = k + 1;
        }
        assert(views_of(r@) =~= self.ids());
        r
    }
}


// ── Reading ids ──────────────────────────────────────────────────────────────
/// An endpoint id from its text (64 hex digits or base32), ignoring the
/// white space around it.
pub fn parse_peer(raw: &str) -> (r: Option<String>)
    ensures
        r is Some ==> has_id_shape(trim(raw@)),
        r is Some <==> endpoint_id_text(trim(raw@)) is Some,
        r matches Some(t) ==> endpoint_id_text(trim(raw@)) == Some(t@) && is_endpoint_id(t@),
{
    let t = trimmed(raw);
    endpoint_id_of(t.as_str())
}

/// The characters that separate ids in a list: comma, semicolon, newline,
/// space and tab.
pub open spec fn peer_list_separators() -> Seq<char> {
    seq![',', ';', '\n', ' ', '\t']
}

/// The ids read from a list's pieces and, apart, the texts that are not ids
/// (trimmed, in order); blank pieces count for nothing.
pub open spec fn collect_peers(pieces: Seq<Seq<char>>) -> (Set<Seq<char>>, Seq<Seq<char>>)
    decreases pieces.len(),
{
    if pieces.len() == 0 {
        (Set::empty(), Seq::empty())
    } else {
        let (ids, bad) = collect_peers(pieces.drop_last());
        let t = trim(pieces.last());
        if t.len() == 0 {
            (ids, bad)
        } else {
            match endpoint_id_text(t) {
                Some(id) => (ids.insert(id), bad),
                None => (ids, bad.push(t)),
            }
        }
    }
}

/// Every non-blank piece that reads as an id has one of the shapes of an
/// id text.
pub open spec fn pieces_shaped(pieces: Seq<Seq<char>>) -> bool {
    forall|k: int|
        0 <= k < pieces.len() && trim(#[trigger] pieces[k]).len() > 0 && endpoint_id_text(
            trim(pieces[k]),
        ) is Some ==> has_id_shape(trim(pieces[k]))
}

/// A list of ids separated by commas, semicolons or white space: the valid
/// ones, and apart the texts that did not read as ids.
pub fn parse_peer_list(raw: &str) -> (r: (IdSet, Vec<String>))
    ensures
        pieces_shaped(split_text(raw@, peer_list_separators())),
        r.0.wf(),
        r.0.members() == collect_peers(split_text(raw@, peer_list_separators())).0,
        views_of(r.1@) == collect_peers(split_text(raw@, peer_list_separators())).1,
{
    let mut seps: Vec<char> = Vec::new();
    seps.push(',');
    seps.push(';');
    seps.push('\n');
    seps.push(' ');
    seps.push('\t');
    assert(seps@ =~= peer_list_separators());
    let pieces = split_text_exec(raw, &seps);
    let ghost all = split_text(raw@, peer_list_separators());
    let mut ids = IdSet::new();
    let mut invalid: Vec<String> = Vec::new();
    let mut i: usize = 0;
    assert(all.subrange(0, 0) =~= Seq::<Seq<char>>::empty());
    assert(ids.members() =~= Set::<Seq<char>>::empty());
    assert(views_of(invalid@) =~= Seq::<Seq<char>>::empty());
    while i < pieces.len()
        invariant
            views_of(pieces@) == all,
            i <= pieces@.len(),
            ids.wf(),
            ids.members() == collect_peers(all.subrange(0, i as int)).0,
            views_of(invalid@) == collect_peers(all.subrange(0, i as int)).1,
            pieces_shaped(all.subrange(0, i as int)),
        decreases pieces@.len() - i,
    {
        let ghost before = all.subrange(0, i as int);
        let ghost next = all.subrange(0, i as int + 1);
        assert(next.drop_last() =~= before);
        assert(next.last() == pieces@[i as int]@);
        let piece = pieces[i].as_str();
        if !is_blank(piece) {
            match parse_peer(piece) {
                Some(id) => {
                    ids.insert(id);
                },
                None => {
                    let ghost bad = invalid@;
                    invalid.push(trimmed(piece));
                    assert(views_of(invalid@) =~= views_of(bad).push(trim(piece@)));
                },
            }
        }
        assert forall|k: int|
            0 <= k < next.len() && trim(#[trigger] next[k]).len() > 0 && endpoint_id_text(
                trim(next[k]),
            ) is Some implies has_id_shape(trim(next[k])) by {
            if k < i {
                assert(next[k] == before[k]);
            }
        }
        i = i + 1;
    }
    assert(all.subrange(0, pieces@.len() as int) =~= all);
    (ids, invalid)
}

// ── peers.txt ────────────────────────────────────────────────────────────────
/// The first comment line of `peers.txt`.
pub open spec fn saved_comment_one() -> Seq<char> {
    "# Pares de sincronización feathrai (uno por línea, como los muestra Ajustes)."@
}

/// The second comment line of `peers.txt`.
pub open spec fn saved_comment_two() -> Seq<char> {
    "# Se conectan en cada arranque; la app los edita sola desde Ajustes."@
}

/// The ids read from the lines of `peers.txt` and, apart, the lines that are
/// not ids (trimmed); blank lines and lines starting with `#` are skipped.
pub open spec fn collect_saved(lines: Seq<Seq<char>>) -> (Set<Seq<char>>, Seq<Seq<char>>)
    decreases lines.len(),
{
    if lines.len() == 0 {
        (Set::empty(), Seq::empty())
    } else {
        let (ids, bad) = collect_saved(lines.drop_last());
        let t = trim(lines.last());
        if t.len() == 0 || t[0] == '#' {
            (ids, bad)
        } else {
            match endpoint_id_text(t) {
                Some(id) => (ids.insert(id), bad),
                None => (ids, bad.push(t)),
            }
        }
    }
}

/// The ids saved in the text of `peers.txt`, and apart the lines that did
/// not read as ids.
pub fn load_saved(text: &str) -> (r: (IdSet, Vec<String>))
    ensures
        r.0.wf(),
        r.0.members() == collect_saved(split_text(text@, seq!['\n'])).0,
        views_of(r.1@) == collect_saved(split_text(text@, seq!['\n'])).1,
{
    let mut seps: Vec<char> = Vec::new();
    seps.push('\n');
    assert(seps@ =~= seq!['\n']);
    let lines = split_text_exec(text, &seps);
    let ghost all = split_text(text@, seq!['\n']);
    let mut ids = IdSet::new();
    let mut invalid: Vec<String> = Vec::new();
    let mut i: usize = 0;
    assert(all.subrange(0, 0) =~= Seq::<Seq<char>>::empty());
    assert(ids.members() =~= Set::<Seq<char>>::empty());
    assert(views_of(invalid@) =~= Seq::<Seq<char>>::empty());
    while i < lines.len()
        invariant
            views_of(lines@) == all,
            i <= lines@.len(),
            ids.wf(),
            ids.members() == collect_saved(all.subrange(0, i as int)).0,
            views_of(invalid@) == collect_saved(all.subrange(0, i as int)).1,
        decreases lines@.len() - i,
    {
        let ghost before = all.subrange(0, i as int);
        let ghost next = all.subrange(0, i as int + 1);
        assert(next.drop_last() =~= before);
        assert(next.last() == lines@[i as int]@);
        let line = trimmed(lines[i].as_str());
        let skip = if line.unicode_len() == 0 {
            true
        } else {
            line.get_char(0) == '#'
        };
        if !skip {
            match endpoint_id_of(line.as_str()) {
                Some(id) => {
                    ids.insert(id);
                },
                None => {
                    let ghost bad = invalid@;
                    invalid.push(line);
                    assert(views_of(invalid@) =~= views_of(bad).push(trim(lines@[i as int]@)));
                },
            }
        }
        i = i + 1;
    }
    assert(all.subrange(0, lines@.len() as int) =~= all);
    (ids, invalid)
}

/// One line per id, each ended by a newline.
pub open spec fn id_lines(ids: Seq<Seq<char>>) -> Seq<char>
    decreases ids.len(),
{
    if ids.len() == 0 {
        Seq::empty()
    } else {
        id_lines(ids.drop_last()) + ids.last() + seq!['\n']
    }
}

/// The text of `peers.txt`: two comment lines, then the ids in order.
pub open spec fn saved_file(ids: Seq<Seq<char>>) -> Seq<char> {
    saved_comment_one() + seq!['\n'] + saved_comment_two() + seq!['\n'] + id_lines(ids)
}

/// The text that `peers.txt` is rewritten with.
pub fn write_saved(saved: &IdSet) -> (r: String)
    ensures
        r@ == saved_file(saved.ids()),
{
    let mut text = String::new();
    push_text(&mut text, "# Pares de sincronización feathrai (uno por línea, como los muestra Ajustes).");
    push_char(&mut text, '\n');
    push_text(&mut text, "# Se conectan en cada arranque; la app los edita sola desde Ajustes.");
    push_char(&mut text, '\n');
    let ghost header = text@;
    let ids = saved.to_vec();
    let mut k: usize = 0;
    assert(saved.ids().subrange(0, 0) =~= Seq::<Seq<char>>::empty());
    assert(header + id_lines(Seq::empty()) =~= header);
    while k < ids.len()
        invariant
            views_of(ids@) == saved.ids(),
            k <= ids@.len(),
            text@ == header + id_lines(saved.ids().subrange(0, k as int)),
        decreases ids@.len() - k,
    {
        let ghost prev = text@;
        push_text(&mut text, ids[k].as_str());
        push_char(&mut text, '\n');
        proof {
            let next = saved.ids().subrange(0, k as int + 1);
            assert(next.drop_last() =~= saved.ids().subrange(0, k as int));
            assert(next.last() == ids@[k as int]@);
            assert(text@ =~= header + id_lines(next));
        }
        k = k + 1;
    }
    assert(saved.ids().subrange(0, ids@.len() as int) =~= saved.ids());
    text
}

/// A canonical id has no white space at either end, and does not start with
/// `#`.
proof fn lemma_id_is_its_own_line(e: Seq<char>)
    requires
        is_canonical_id(e),
    ensures
        trim(e) == e,
        e.len() > 0 && e[0] != '#',
        forall|i: int| 0 <= i < e.len() ==> e[i] != '\n',
{
    assert(is_hex_lower(e[0]) && !is_white_space(e[0]));
    assert(is_hex_lower(e.last()) && !is_white_space(e.last()));
    assert(trim_start(e) == e);
    assert(trim_end(e) == e);
    assert forall|i: int| 0 <= i < e.len() implies e[i] != '\n' by {
        assert(is_hex_lower(e[i]));
    }
}

/// Appending a line to text that ends with a newline adds that line and a
/// new empty last piece.
proof fn lemma_split_add_line(p: Seq<char>, e: Seq<char>)
    requires
        split_text(p, seq!['\n']).last() == Seq::<char>::empty(),
        forall|i: int| 0 <= i < e.len() ==> e[i] != '\n',
    ensures
        split_text(p + e + seq!['\n'], seq!['\n']) == split_text(p, seq!['\n']).drop_last() + seq![
            e,
            Seq::<char>::empty(),
        ],
{
    let nl = seq!['\n'];
    lemma_split_text_whole(e, nl);
    lemma_split_text_concat(p, e, nl);
    let sp = split_text(p, nl);
    lemma_split_text_nonempty(p, nl);
    assert(seq![e].drop_first() =~= Seq::<Seq<char>>::empty());
    assert(Seq::<char>::empty() + e =~= e);
    assert(split_text(p + e, nl) =~= sp.drop_last() + seq![e]);
    let empty = Seq::<char>::empty();
    assert(split_text(nl, nl) == split_text(empty, nl).push(empty)) by {
        assert(nl.drop_last() =~= empty);
    }
    assert(split_text(nl, nl) =~= seq![empty, empty]);
    lemma_split_text_concat(p + e, nl, nl);
    assert(e + empty =~= e);
    assert((sp.drop_last() + seq![e]).drop_last() =~= sp.drop_last());
    assert(split_text(p + e + nl, nl) =~= sp.drop_last() + seq![e, empty]);
}

/// The lines of the saved file: the two comments, the ids, and the empty
/// piece after the last newline.
proof fn lemma_saved_file_lines(ids: Seq<Seq<char>>)
    requires
        forall|k: int| 0 <= k < ids.len() ==> is_canonical_id(#[trigger] ids[k]),
    ensures
        split_text(saved_file(ids), seq!['\n']) == seq![saved_comment_one(), saved_comment_two()]
            + ids + seq![Seq::<char>::empty()],
    decreases ids.len(),
{
    let nl = seq!['\n'];
    let empty = Seq::<char>::empty();
    if ids.len() == 0 {
        reveal_strlit("# Pares de sincronización feathrai (uno por línea, como los muestra Ajustes).");
        reveal_strlit("# Se conectan en cada arranque; la app los edita sola desde Ajustes.");
        let c1 = saved_comment_one();
        let c2 = saved_comment_two();
        assert(forall|i: int| 0 <= i < c1.len() ==> c1[i] != '\n');
        assert(forall|i: int| 0 <= i < c2.len() ==> c2[i] != '\n');
        assert(split_text(empty, nl) == seq![empty]);
        lemma_split_add_line(empty, c1);
        assert(empty + c1 + nl =~= c1 + nl);
        assert(seq![empty].drop_last() + seq![c1, empty] =~= seq![c1, empty]);
        lemma_split_add_line(c1 + nl, c2);
        assert(seq![c1, empty].drop_last() + seq![c2, empty] =~= seq![c1, c2, empty]);
        assert(saved_file(ids) =~= c1 + nl + c2 + nl);
        assert(seq![c1, c2] + ids + seq![empty] =~= seq![c1, c2, empty]);
    } else {
        let rest = ids.drop_last();
        let e = ids.last();
        lemma_saved_file_lines(rest);
        lemma_id_is_its_own_line(e);
        let p = saved_file(rest);
        assert(split_text(p, nl).last() == empty);
        lemma_split_add_line(p, e);
        assert(saved_file(ids) =~= p + e + nl);
        assert((seq![saved_comment_one(), saved_comment_two()] + rest + seq![empty]).drop_last()
            + seq![e, empty] =~= seq![saved_comment_one(), saved_comment_two()] + ids + seq![empty]);
    }
}

/// What the comment lines and the ids give when read back.
proof fn lemma_collect_saved_ids(ids: Seq<Seq<char>>)
    requires
        forall|k: int| 0 <= k < ids.len() ==> is_endpoint_id(#[trigger] ids[k]),
    ensures
        collect_saved(seq![saved_comment_one(), saved_comment_two()] + ids) == (
            ids.to_set(),
            Seq::<Seq<char>>::empty(),
        ),
    decreases ids.len(),
{
    let head = seq![saved_comment_one(), saved_comment_two()];
    if ids.len() == 0 {
        reveal_strlit("# Pares de sincronización feathrai (uno por línea, como los muestra Ajustes).");
        reveal_strlit("# Se conectan en cada arranque; la app los edita sola desde Ajustes.");
        let c1 = saved_comment_one();
        let c2 = saved_comment_two();
        assert(!is_white_space(c1[0]) && !is_white_space(c1.last()));
        assert(!is_white_space(c2[0]) && !is_white_space(c2.last()));
        assert(trim_start(c1) == c1 && trim_end(c1) == c1);
        assert(trim_start(c2) == c2 && trim_end(c2) == c2);
        assert(head + ids =~= head);
        assert(head.drop_last() =~= seq![c1]);
        assert(seq![c1].drop_last() =~= Seq::<Seq<char>>::empty());
        assert(c1[0] == '#' && c2[0] == '#');
        assert(collect_saved(Seq::<Seq<char>>::empty()) == (Set::<Seq<char>>::empty(), Seq::<Seq<char>>::empty()));
        assert(collect_saved(seq![c1]) == (Set::<Seq<char>>::empty(), Seq::<Seq<char>>::empty()));
        assert(collect_saved(head) == (Set::<Seq<char>>::empty(), Seq::<Seq<char>>::empty()));
        assert(ids.to_set() =~= Set::<Seq<char>>::empty());
    } else {
        let rest = ids.drop_last();
        let e = ids.last();
        lemma_collect_saved_ids(rest);
        lemma_id_is_its_own_line(e);
        assert((head + ids).drop_last() =~= head + rest);
        assert((head + ids).last() == e);
        assert(trim(e) == e && e[0] != '#');
        assert(endpoint_id_text(e) == Some(e));
        assert(collect_saved(head + ids) == (collect_saved(head + rest).0.insert(e), collect_saved(head + rest).1));
        assert(ids.to_set() =~= rest.to_set().insert(e)) by {
            assert forall|x: Seq<char>| ids.contains(x) <==> rest.contains(x) || x == e by {
                if ids.contains(x) {
                    let j = choose|j: int| 0 <= j < ids.len() && ids[j] == x;
                    if j < ids.len() - 1 {
                        assert(rest[j] == x);
                    }
                }
                if rest.contains(x) {
                    let j = choose|j: int| 0 <= j < rest.len() && rest[j] == x;
                    assert(ids[j] == x);
                }
                if x == e {
                    assert(ids[ids.len() - 1] == x);
                }
            }
        }
    }
}

/// What `write_saved` writes, `load_saved` reads back: the same ids, and
/// no line it cannot read.
pub proof fn law_saved_peers_read_back(saved: IdSet)
    requires
        saved.wf(),
    ensures
        collect_saved(split_text(saved_file(saved.ids()), seq!['\n'])) == (
            saved.members(),
            Seq::<Seq<char>>::empty(),
        ),
{
    let ids = saved.ids();
    let empty = Seq::<char>::empty();
    lemma_saved_file_lines(ids);
    lemma_collect_saved_ids(ids);
    let lines = seq![saved_comment_one(), saved_comment_two()] + ids + seq![empty];
    assert(lines.drop_last() =~= seq![saved_comment_one(), saved_comment_two()] + ids);
    assert(trim_start(empty) == empty);
    assert(trim_end(empty) == empty);
}


// ── Start-up configuration ───────────────────────────────────────────────────
/// Default wait for LAN discovery before the stores open: long enough for
/// one mDNS announcement of the other node.
pub const DEFAULT_LAN_WAIT_MS: u64 = 2500;

/// The value of an environment variable, unless it is missing or blank.
pub fn env_value(raw: Option<String>) -> (r: Option<String>)
    ensures
        r == (match raw {
            Some(v) => if trim(v@).len() == 0 {
                None
            } else {
                Some(v)
            },
            None => None,
        }),
{
    match raw {
        Some(v) => if is_blank(v.as_str()) {
            None
        } else {
            Some(v)
        },
        None => None,
    }
}

/// The milliseconds that `FEATHRAI_LAN_WAIT_MS` asks for: its trimmed text
/// as a `u64`.
pub open spec fn lan_wait_of(raw: Option<String>) -> Option<u64> {
    match raw {
        Some(v) => match unsigned_text_value(trim(v@)) {
            Some(n) => if n <= u64::MAX {
                Some(n as u64)
            } else {
                None
            },
            None => None,
        },
        None => None,
    }
}

/// The LAN wait asked for by the environment value, if it reads.
pub fn env_lan_wait(raw: Option<String>) -> (r: Option<u64>)
    ensures
        r == lan_wait_of(raw),
{
    match raw {
        Some(v) => {
            let t = trimmed(v.as_str());
            parse_unsigned(t.as_str(), u64::MAX)
        },
        None => None,
    }
}

/// How the peer network joins at start-up.
pub struct Join {
    /// Dial the configured peers (`FEATHRAI_PEERS` and `peers.txt`).
    pub configured: bool,
    /// Discover peers on the local network by mDNS (and keep listening).
    pub lan: bool,
    /// How long LAN discovery runs before the stores open, in milliseconds.
    pub lan_wait_ms: u64,
}

impl Join {
    /// The app's configuration: configured peers and mDNS, waiting what
    /// `FEATHRAI_LAN_WAIT_MS` (given here by value) asks for, or
    /// [`DEFAULT_LAN_WAIT_MS`].
    pub fn app(lan_wait_env: Option<String>) -> (r: Join)
        ensures
            r.configured,
            r.lan,
            r.lan_wait_ms == (match lan_wait_of(lan_wait_env) {
                Some(ms) => ms,
                None => DEFAULT_LAN_WAIT_MS,
            }),
    {
        let wait = match env_lan_wait(lan_wait_env) {
            Some(ms) => ms,
            None => DEFAULT_LAN_WAIT_MS,
        };
        Join { configured: true, lan: true, lan_wait_ms: wait }
    }

    /// No peer network: nothing read, no mDNS, nothing dialed.
    pub fn off() -> (r: Join)
        ensures
            !r.configured,
            !r.lan,
            r.lan_wait_ms == 0,
    {
        Join { configured: false, lan: false, lan_wait_ms: 0 }
    }

    /// Whether start-up waits for LAN discovery (and then dials what it
    /// found).
    pub fn waits_for_lan(&self) -> (r: bool)
        ensures
            r == (self.lan && self.lan_wait_ms != 0),
    {
        self.lan && self.lan_wait_ms != 0
    }
}

// ── The peers of this run ────────────────────────────────────────────────────
/// Where a peer came from (for Settings).
#[derive(Clone, Copy, PartialEq, Eq, Debug, Structural)]
pub enum Source {
    /// `FEATHRAI_PEERS`.
    Env,
    /// Saved in `peers.txt` from Settings.
    Saved,
    /// Seen by mDNS on the local network during this run.
    Lan,
}

/// A sync peer as Settings shows it.
#[derive(Clone, Debug)]
pub struct Peer {
    /// The endpoint id (64 hex digits).
    pub id: String,
    pub source: Source,
    /// A dial of this run established the connection.
    pub connected: bool,
    /// It showed up after the stores opened: it joins this data space at the
    /// next start.
    pub late: bool,
}

/// The peer network's state: every set of ids this run keeps.
pub struct Peers {
    /// From `FEATHRAI_PEERS` (not editable from Settings).
    pub env_peers: IdSet,
    /// From `peers.txt` (editable from Settings).
    pub saved: IdSet,
    /// Dialed or seen by mDNS during this run.
    pub lan: IdSet,
    /// Dials of this run that connected.
    pub dialed: IdSet,
    /// Seen or added after the stores opened.
    pub late: IdSet,
    /// The stores are open: whatever arrives now is late.
    pub started: bool,
    /// mDNS discovery is running.
    pub mdns: bool,
}

/// Where a known id came from: the environment first, then `peers.txt`,
/// else the network.
pub open spec fn source_of(env: Set<Seq<char>>, saved: Set<Seq<char>>, id: Seq<char>) -> Source {
    if env.contains(id) {
        Source::Env
    } else if saved.contains(id) {
        Source::Saved
    } else {
        Source::Lan
    }
}

/// The ids of `a` that are not in `b`, in `a`'s order.
pub open spec fn ids_without(a: Seq<Seq<char>>, b: Set<Seq<char>>) -> Seq<Seq<char>>
    decreases a.len(),
{
    if a.len() == 0 {
        Seq::empty()
    } else if b.contains(a.last()) {
        ids_without(a.drop_last(), b)
    } else {
        ids_without(a.drop_last(), b).push(a.last())
    }
}

impl Peers {
    pub open spec fn wf(&self) -> bool {
        &&& self.env_peers.wf()
        &&& self.saved.wf()
        &&& self.lan.wf()
        &&& self.dialed.wf()
        &&& self.late.wf()
    }

    /// Every id this run knows: from the environment, `peers.txt` or the
    /// network.
    pub open spec fn known(&self) -> Set<Seq<char>> {
        self.env_peers.members() + self.saved.members() + self.lan.members()
    }

    /// The configured peers of a run that joins as `join` says: the ids
    /// listed in `FEATHRAI_PEERS` (its value given here) and those saved in
    /// `peers.txt` (its text, if the file reads). Returns the state and,
    /// apart, the environment entries and file lines that are not ids.
    pub fn start(join: &Join, env_peers: Option<String>, saved_text: Option<String>) -> (r: (
        Peers,
        Vec<String>,
        Vec<String>,
    ))
        ensures
            r.0.wf(),
            !r.0.started,
            !r.0.mdns,
            r.0.lan.ids().len() == 0,
            r.0.dialed.ids().len() == 0,
            r.0.late.ids().len() == 0,
            join.configured ==> r.0.env_peers.members() == collect_peers(
                split_text(
                    match env_peers {
                        Some(v) => v@,
                        None => Seq::empty(),
                    },
                    peer_list_separators(),
                ),
            ).0,
            join.configured ==> views_of(r.1@) == collect_peers(
                split_text(
                    match env_peers {
                        Some(v) => v@,
                        None => Seq::empty(),
                    },
                    peer_list_separators(),
                ),
            ).1,
            join.configured && saved_text is Some ==> r.0.saved.members() == collect_saved(
                split_text(saved_text->0@, seq!['\n']),
            ).0,
            join.configured && saved_text is Some ==> views_of(r.2@) == collect_saved(
                split_text(saved_text->0@, seq!['\n']),
            ).1,
            !join.configured ==> r.0.env_peers.ids().len() == 0 && r.1@.len() == 0,
            !(join.configured && saved_text is Some) ==> r.0.saved.ids().len() == 0 && r.2@.len()
                == 0,
    {
        let mut state = Peers {
            env_peers: IdSet::new(),
            saved: IdSet::new(),
            lan: IdSet::new(),
            dialed: IdSet::new(),
            late: IdSet::new(),
            started: false,
            mdns: false,
        };
        let mut bad_env: Vec<String> = Vec::new();
        let mut bad_saved: Vec<String> = Vec::new();
        if join.configured {
            let list = match env_peers {
                Some(v) => v,
                None => String::new(),
            };
            let (ids, invalid) = parse_peer_list(list.as_str());
            state.env_peers = ids;
            bad_env = invalid;
            match saved_text {
                Some(text) => {
                    let (ids, invalid) = load_saved(text.as_str());
                    state.saved = ids;
                    bad_saved = invalid;
                },
                None => {},
            }
        }
        (state, bad_env, bad_saved)
    }

    /// The peers to dial at start-up: those of the environment, then those
    /// of `peers.txt` (an id in both is dialed twice).
    pub fn start_dials(&self) -> (r: Vec<String>)
        ensures
            views_of(r@) == self.env_peers.ids() + self.saved.ids(),
    {
        let mut r = self.env_peers.to_vec();
        let mut more = self.saved.to_vec();
        let ghost a = r@;
        let ghost b = more@;
        r.append(&mut more);
        assert(views_of(r@) =~= views_of(a) + views_of(b));
        r
    }

    /// Records a dial of `id`: the id becomes known, connected if the dial
    /// reached it, and late if the stores are already open.
    pub fn record_dial(&mut self, id: String, ok: bool)
        requires
            old(self).wf(),
            is_endpoint_id(id@),
        ensures
            final(self).wf(),
            final(self).lan.members() == old(self).lan.members().insert(id@),
            final(self).dialed.members() == if ok {
                old(self).dialed.members().insert(id@)
            } else {
                old(self).dialed.members()
            },
            final(self).late.members() == if old(self).started {
                old(self).late.members().insert(id@)
            } else {
                old(self).late.members()
            },
            final(self).env_peers == old(self).env_peers,
            final(self).saved == old(self).saved,
            final(self).started == old(self).started,
            final(self).mdns == old(self).mdns,
    {
        self.lan.insert(id.clone());
        if ok {
            self.dialed.insert(id.clone());
        }
        if self.started {
            self.late.insert(id);
        }
    }

    /// The ids seen on the network that no dial has connected yet, in
    /// ascending order (the last pass of the start-up wait).
    pub fn pending_dials(&self) -> (r: Vec<String>)
        ensures
            views_of(r@) == ids_without(self.lan.ids(), self.dialed.members()),
    {
        let all = self.lan.to_vec();
        let mut r: Vec<String> = Vec::new();
        let mut k: usize = 0;
        assert(self.lan.ids().subrange(0, 0) =~= Seq::<Seq<char>>::empty());
        assert(views_of(r@) =~= Seq::<Seq<char>>::empty());
        while k < all.len()
            invariant
                views_of(all@) == self.lan.ids(),
                k <= all@.len(),
                views_of(r@) == ids_without(self.lan.ids().subrange(0, k as int), self.dialed.members()),
            decreases all@.len() - k,
        {
            let ghost pre = self.lan.ids().subrange(0, k as int);
            let ghost next = self.lan.ids().subrange(0, k as int + 1);
            assert(next.drop_last() =~= pre);
            assert(next.last() == all@[k as int]@);
            if !self.dialed.contains(all[k].as_str()) {
                let ghost before = r@;
                r.push(all[k].clone());
                assert(views_of(r@) =~= views_of(before).push(all@[k as int]@));
            }
            k = k + 1;
        }
        assert(self.lan.ids().subrange(0, all@.len() as int) =~= self.lan.ids());
        r
    }

    /// The stores are open: from now on what arrives is late; `mdns` says
    /// whether discovery is running.
    pub fn finish_start(&mut self, mdns: bool)
        ensures
            final(self).started,
            final(self).mdns == mdns,
            final(self).env_peers == old(self).env_peers,
            final(self).saved == old(self).saved,
            final(self).lan == old(self).lan,
            final(self).dialed == old(self).dialed,
            final(self).late == old(self).late,
    {
        self.started = true;
        self.mdns = mdns;
    }

    /// mDNS saw `id`: it becomes known unless it is this node (`this`).
    /// `true` when it is new, and so is to be dialed.
    pub fn note_discovered(&mut self, id: String, this: &str) -> (r: bool)
        requires
            old(self).wf(),
            is_endpoint_id(id@),
        ensures
            final(self).wf(),
            r == (id@ != this@ && !old(self).lan.ids().contains(id@)),
            final(self).lan.members() == if id@ == this@ {
                old(self).lan.members()
            } else {
                old(self).lan.members().insert(id@)
            },
            final(self).env_peers == old(self).env_peers,
            final(self).saved == old(self).saved,
            final(self).dialed == old(self).dialed,
            final(self).late == old(self).late,
            final(self).started == old(self).started,
            final(self).mdns == old(self).mdns,
    {
        if same_text(id.as_str(), this) {
            return false;
        }
        self.lan.insert(id)
    }

    /// Where `id` came from.
    pub fn source(&self, id: &str) -> (r: Source)
        ensures
            r == source_of(self.env_peers.members(), self.saved.members(), id@),
    {
        if self.env_peers.contains(id) {
            Source::Env
        } else if self.saved.contains(id) {
            Source::Saved
        } else {
            Source::Lan
        }
    }

    /// Every known id, once, in ascending order.
    pub fn ids(&self) -> (r: IdSet)
        requires
            self.wf(),
        ensures
            r.wf(),
            r.members() == self.known(),
    {
        let mut r = IdSet::new();
        let a = self.env_peers.to_vec();
        let b = self.saved.to_vec();
        let c = self.lan.to_vec();
        let mut k: usize = 0;
        assert(r.members() =~= Set::<Seq<char>>::empty());
        while k < a.len()
            invariant
                self.wf(),
                views_of(a@) == self.env_peers.ids(),
                k <= a@.len(),
                r.wf(),
                r.members() == self.env_peers.ids().subrange(0, k as int).to_set(),
            decreases a@.len() - k,
        {
            assert(is_endpoint_id(self.env_peers.ids()[k as int]));
            r.insert(a[k].clone());
            k = k + 1;
            proof {
                lemma_prefix_to_set(self.env_peers.ids(), k as int);
            }
        }
        assert(self.env_peers.ids().subrange(0, a@.len() as int) =~= self.env_peers.ids());
        let mut k: usize = 0;
        assert(self.saved.ids().subrange(0, 0).to_set() =~= Set::<Seq<char>>::empty());
        while k < b.len()
            invariant
                self.wf(),
                views_of(b@) == self.saved.ids(),
                k <= b@.len(),
                r.wf(),
                r.members() == self.env_peers.members() + self.saved.ids().subrange(0, k as int).to_set(),
            decreases b@.len() - k,
        {
            assert(is_endpoint_id(self.saved.ids()[k as int]));
            r.insert(b[k].clone());
            k = k + 1;
            proof {
                lemma_prefix_to_set(self.saved.ids(), k as int);
            }
        }
        assert(self.saved.ids().subrange(0, b@.len() as int) =~= self.saved.ids());
        let mut k: usize = 0;
        assert(self.lan.ids().subrange(0, 0).to_set() =~= Set::<Seq<char>>::empty());
        while k < c.len()
            invariant
                self.wf(),
                views_of(c@) == self.lan.ids(),
                k <= c@.len(),
                r.wf(),
                r.members() == self.env_peers.members() + self.saved.members() + self.lan.ids().subrange(0, k as int).to_set(),
            decreases c@.len() - k,
        {
            assert(is_endpoint_id(self.lan.ids()[k as int]));
            r.insert(c[k].clone());
            k = k + 1;
            proof {
                lemma_prefix_to_set(self.lan.ids(), k as int);
            }
        }
        assert(self.lan.ids().subrange(0, c@.len() as int) =~= self.lan.ids());
        r
    }
}

/// Growing a prefix by one element adds that element to its set.
proof fn lemma_prefix_to_set(s: Seq<Seq<char>>, k: int)
    requires
        0 < k <= s.len(),
    ensures
        s.subrange(0, k).to_set() == s.subrange(0, k - 1).to_set().insert(s[k - 1]),
{
    let a = s.subrange(0, k);
    let b = s.subrange(0, k - 1);
    assert forall|x: Seq<char>| a.contains(x) <==> b.contains(x) || x == s[k - 1] by {
        if a.contains(x) {
            let j = choose|j: int| 0 <= j < a.len() && a[j] == x;
            if j < k - 1 {
                assert(b[j] == x);
            }
        }
        if b.contains(x) {
            let j = choose|j: int| 0 <= j < b.len() && b[j] == x;
            assert(a[j] == x);
        }
        if x == s[k - 1] {
            assert(a[k - 1] == x);
        }
    }
    assert(a.to_set() =~= b.to_set().insert(s[k - 1]));
}


/// The ids of a list of peers, in order.
pub open spec fn peer_ids(v: Seq<Peer>) -> Seq<Seq<char>> {
    v.map_values(|p: Peer| p.id@)
}

/// Why a dial from Settings did not connect.
pub open spec fn connect_error(id: Seq<char>) -> Seq<char> {
    "no se pudo conectar con "@ + id + ": ¿está la app abierta y en la misma red?"@
}

/// The start-up log line about the peer network.
pub open spec fn summary_text(configured: nat, connected: nat, lan: nat, mdns: bool) -> Seq<char> {
    "pares: "@ + decimal(configured) + " configurados ("@ + decimal(connected)
        + " con conexión), "@ + decimal(lan) + " por red interna; mDNS: "@ + if mdns {
        "sí"@
    } else {
        "no"@
    }
}

impl Peers {
    /// The peers of this run for Settings: every known id once, in
    /// ascending order, with its origin and what the dials did.
    pub fn peers(&self) -> (r: Vec<Peer>)
        requires
            self.wf(),
        ensures
            strictly_sorted(peer_ids(r@)),
            peer_ids(r@).to_set() == self.known(),
            forall|i: int|
                0 <= i < r@.len() ==> {
                    let p = #[trigger] r@[i];
                    &&& p.source == source_of(
                        self.env_peers.members(),
                        self.saved.members(),
                        p.id@,
                    )
                    &&& p.connected == self.dialed.members().contains(p.id@)
                    &&& p.late == self.late.members().contains(p.id@)
                },
    {
        let all = self.ids();
        let v = all.to_vec();
        let mut r: Vec<Peer> = Vec::new();
        let mut k: usize = 0;
        while k < v.len()
            invariant
                self.wf(),
                all.wf(),
                views_of(v@) == all.ids(),
                k <= v@.len(),
                r@.len() == k,
                forall|i: int| 0 <= i < k ==> (#[trigger] r@[i]).id@ == v@[i]@,
                forall|i: int|
                    0 <= i < k ==> {
                        let p = #[trigger] r@[i];
                        &&& p.source == source_of(
                            self.env_peers.members(),
                            self.saved.members(),
                            p.id@,
                        )
                        &&& p.connected == self.dialed.members().contains(p.id@)
                        &&& p.late == self.late.members().contains(p.id@)
                    },
            decreases v@.len() - k,
        {
            let id = v[k].as_str();
            let peer = Peer {
                id: v[k].clone(),
                source: self.source(id),
                connected: self.dialed.contains(id),
                late: self.late.contains(id),
            };
            r.push(peer);
            k = k + 1;
        }
        assert(peer_ids(r@) =~= all.ids()) by {
            assert forall|i: int| 0 <= i < r@.len() implies peer_ids(r@)[i] == all.ids()[i] by {
                assert(r@[i].id@ == v@[i]@);
                assert(views_of(v@)[i] == v@[i]@);
            }
        }
        r
    }

    /// The answer to a dial asked for from Settings, once it is done: fine
    /// if `id` is now connected.
    pub fn connect(&self, id: &str) -> (r: Result<(), String>)
        ensures
            r is Ok <==> self.dialed.members().contains(id@),
            r matches Err(e) ==> e@ == connect_error(id@),
    {
        if self.dialed.contains(id) {
            Ok(())
        } else {
            let mut e = String::new();
            push_text(&mut e, "no se pudo conectar con ");
            push_text(&mut e, id);
            push_text(&mut e, ": ¿está la app abierta y en la misma red?");
            Err(e)
        }
    }

    /// Saves `id` (once) among the peers of `peers.txt`; returns the file's
    /// new text.
    pub fn save(&mut self, id: String) -> (r: String)
        requires
            old(self).wf(),
            is_endpoint_id(id@),
        ensures
            final(self).wf(),
            final(self).saved.members() == old(self).saved.members().insert(id@),
            r@ == saved_file(final(self).saved.ids()),
            final(self).env_peers == old(self).env_peers,
            final(self).lan == old(self).lan,
            final(self).dialed == old(self).dialed,
            final(self).late == old(self).late,
            final(self).started == old(self).started,
            final(self).mdns == old(self).mdns,
    {
        self.saved.insert(id);
        write_saved(&self.saved)
    }

    /// Forgets a saved peer (the environment's stay); returns the new text
    /// of `peers.txt`.
    pub fn forget(&mut self, id: &str) -> (r: String)
        requires
            old(self).wf(),
        ensures
            final(self).wf(),
            final(self).saved.members() == old(self).saved.members().remove(id@),
            final(self).lan.members() == old(self).lan.members().remove(id@),
            r@ == saved_file(final(self).saved.ids()),
            final(self).env_peers == old(self).env_peers,
            final(self).dialed == old(self).dialed,
            final(self).late == old(self).late,
            final(self).started == old(self).started,
            final(self).mdns == old(self).mdns,
    {
        self.saved.remove(id);
        self.lan.remove(id);
        write_saved(&self.saved)
    }

    /// The start-up log line: how many peers are configured, how many
    /// connected, how many came from the network, and whether mDNS runs.
    pub fn summary(&self) -> (r: String)
        ensures
            r@ == summary_text(
                (self.env_peers.ids().len() + self.saved.ids().len()) as nat,
                self.dialed.ids().len(),
                self.lan.ids().len(),
                self.mdns,
            ),
    {
        let configured: u128 = self.env_peers.len() as u128 + self.saved.len() as u128;
        let mut s = String::new();
        push_text(&mut s, "pares: ");
        push_wide_decimal(&mut s, configured);
        push_text(&mut s, " configurados (");
        push_decimal(&mut s, self.dialed.len() as u64);
        push_text(&mut s, " con conexión), ");
        push_decimal(&mut s, self.lan.len() as u64);
        push_text(&mut s, " por red interna; mDNS: ");
        if self.mdns {
            push_text(&mut s, "sí");
        } else {
            push_text(&mut s, "no");
        }
        assert(s@ =~= summary_text(
            (self.env_peers.ids().len() + self.saved.ids().len()) as nat,
            self.dialed.ids().len(),
            self.lan.ids().len(),
            self.mdns,
        ));
        s
    }
}

/// Appends the decimal text of a `u128`.
fn push_wide_decimal(s: &mut String, n: u128)
    ensures
        final(s)@ == old(s)@ + decimal(n as nat),
    decreases n,
{
    if n < 10 {
        push_decimal(s, n as u64);
    } else {
        push_wide_decimal(s, n / 10);
        push_decimal(s, (n % 10) as u64);
        assert(decimal((n % 10) as nat) == seq![crate::text::digit_char((n % 10) as nat)]);
        assert(decimal(n as nat) == decimal((n / 10) as nat).push(crate::text::digit_char((n % 10) as nat)));
        assert(final(s)@ =~= old(s)@ + decimal(n as nat));
    }
}

/// Two strictly ascending sequences with the same members are the same.
proof fn lemma_sorted_by_members(a: Seq<Seq<char>>, b: Seq<Seq<char>>)
    requires
        strictly_sorted(a),
        strictly_sorted(b),
        a.to_set() == b.to_set(),
    ensures
        a == b,
    decreases a.len(),
{
    lemma_text_order();
    if a.len() == 0 {
        if b.len() > 0 {
            assert(b.to_set().contains(b[0]));
            assert(!a.to_set().contains(b[0]));
        }
        assert(a =~= b);
    } else {
        assert(a.to_set().contains(a[0]));
        assert(b.contains(a[0]));
        assert(b.len() > 0);
        assert(b.to_set().contains(b[0]));
        assert(a.contains(b[0]));
        let i = choose|i: int| 0 <= i < b.len() && b[i] == a[0];
        let j = choose|j: int| 0 <= j < a.len() && a[j] == b[0];
        if i > 0 {
            assert(text_lt(b[0], b[i]));
            if j > 0 {
                assert(text_lt(a[0], a[j]));
            }
        }
        assert(a[0] == b[0]);
        let ra = a.drop_first();
        let rb = b.drop_first();
        assert forall|i: int, j: int| 0 <= i < j < ra.len() implies text_lt(
            #[trigger] ra[i],
            #[trigger] ra[j],
        ) by {
            assert(ra[i] == a[i + 1] && ra[j] == a[j + 1]);
        }
        assert forall|i: int, j: int| 0 <= i < j < rb.len() implies text_lt(
            #[trigger] rb[i],
            #[trigger] rb[j],
        ) by {
            assert(rb[i] == b[i + 1] && rb[j] == b[j + 1]);
        }
        assert forall|x: Seq<char>| ra.to_set().contains(x) implies rb.to_set().contains(x) by {
            let k = choose|k: int| 0 <= k < ra.len() && ra[k] == x;
            assert(a[k + 1] == x);
            assert(text_lt(a[0], a[k + 1]));
            assert(a.to_set().contains(x));
            assert(b.contains(x));
            let m = choose|m: int| 0 <= m < b.len() && b[m] == x;
            assert(m != 0);
            assert(rb[m - 1] == x);
        }
        assert forall|x: Seq<char>| rb.to_set().contains(x) implies ra.to_set().contains(x) by {
            let k = choose|k: int| 0 <= k < rb.len() && rb[k] == x;
            assert(b[k + 1] == x);
            assert(text_lt(b[0], b[k + 1]));
            assert(b.to_set().contains(x));
            assert(a.contains(x));
            let m = choose|m: int| 0 <= m < a.len() && a[m] == x;
            assert(m != 0);
            assert(ra[m - 1] == x);
        }
        assert(ra.to_set() =~= rb.to_set());
        lemma_sorted_by_members(ra, rb);
        assert(a =~= seq![a[0]] + ra);
        assert(b =~= seq![b[0]] + rb);
    }
}

/// Saving an id that is already saved changes nothing: the saved ids, and
/// so the text `peers.txt` is rewritten with, are those of the first save.
pub proof fn law_save_is_idempotent(
    before: Set<Seq<char>>,
    once: IdSet,
    twice: IdSet,
    id: Seq<char>,
)
    requires
        once.wf(),
        twice.wf(),
        once.members() == before.insert(id),
        twice.members() == once.members().insert(id),
    ensures
        twice.ids() == once.ids(),
        saved_file(twice.ids()) == saved_file(once.ids()),
{
    assert(once.members().insert(id) =~= once.members());
    lemma_sorted_by_members(twice.ids(), once.ids());
}

/// A peer dialed with success after the stores opened is listed, as
/// connected and as late (its data space is shared from the next start):
/// what `record_dial` records, `peers` reports.
pub proof fn law_dial_after_start_is_listed_late(before: Peers, after: Peers, id: Seq<char>)
    requires
        before.started,
        after.lan.members() == before.lan.members().insert(id),
        after.dialed.members() == before.dialed.members().insert(id),
        after.late.members() == (if before.started {
            before.late.members().insert(id)
        } else {
            before.late.members()
        }),
    ensures
        after.known().contains(id),
        after.dialed.members().contains(id),
        after.late.members().contains(id),
{
}

/// Forgetting a peer that was just saved leaves the saved set as it was
/// before the save.
pub proof fn law_forget_undoes_save(saved: Set<Seq<char>>, id: Seq<char>)
    requires
        !saved.contains(id),
    ensures
        saved.insert(id).remove(id) == saved,
{
    assert(saved.insert(id).remove(id) =~= saved);
}

// ── How Settings shows a peer ────────────────────────────────────────────────
/// How many bytes UTF-8 takes for `c`.
pub open spec fn utf8_len(c: char) -> nat {
    let u = c as u32;
    if u < 0x80 {
        1
    } else if u < 0x800 {
        2
    } else if u < 0x10000 {
        3
    } else {
        4
    }
}

/// The length of `s` in UTF-8 bytes (`str::len`).
pub open spec fn byte_len(s: Seq<char>) -> nat
    decreases s.len(),
{
    if s.len() == 0 {
        0
    } else {
        utf8_len(s[0]) + byte_len(s.drop_first())
    }
}

/// How many leading characters of `s` fit whole in `n` bytes.
pub open spec fn front_chars(s: Seq<char>, n: int) -> nat
    decreases s.len(),
{
    if s.len() == 0 || utf8_len(s[0]) > n {
        0
    } else {
        1 + front_chars(s.drop_first(), n - utf8_len(s[0]))
    }
}

/// Whether byte `n` of `s` falls between two characters.
pub open spec fn front_cut(s: Seq<char>, n: int) -> bool
    decreases s.len(),
{
    n == 0 || (s.len() > 0 && utf8_len(s[0]) <= n && front_cut(s.drop_first(), n - utf8_len(s[0])))
}

/// How many trailing characters of `s` fit whole in `n` bytes.
pub open spec fn back_chars(s: Seq<char>, n: int) -> nat
    decreases s.len(),
{
    if s.len() == 0 || utf8_len(s.last()) > n {
        0
    } else {
        1 + back_chars(s.drop_last(), n - utf8_len(s.last()))
    }
}

/// Whether `n` bytes from the end of `s` falls between two characters.
pub open spec fn back_cut(s: Seq<char>, n: int) -> bool
    decreases s.len(),
{
    n == 0 || (s.len() > 0 && utf8_len(s.last()) <= n && back_cut(s.drop_last(), n - utf8_len(s.last())))
}

/// An id shortened for the list (the full one goes in the tooltip): up to
/// 18 bytes as it is, else its first 8 bytes and last 6 around an ellipsis.
pub open spec fn short_id(id: Seq<char>) -> Seq<char> {
    if byte_len(id) <= 18 {
        id
    } else {
        id.subrange(0, front_chars(id, 8) as int) + seq!['…'] + id.subrange(
            id.len() - back_chars(id, 6),
            id.len() as int,
        )
    }
}

/// Where shortening cuts `id` (bytes 8 and 6 from the end, when it is longer
/// than 18 bytes), the cut falls between characters; elsewhere slicing the
/// text there panics.
pub open spec fn short_id_cuts(id: Seq<char>) -> bool {
    byte_len(id) > 18 ==> front_cut(id, 8) && back_cut(id, 6)
}

fn utf8_len_exec(c: char) -> (r: usize)
    ensures
        r == utf8_len(c),
{
    let u = c as u32;
    if u < 0x80 {
        1
    } else if u < 0x800 {
        2
    } else if u < 0x10000 {
        3
    } else {
        4
    }
}

/// Whether `v` is longer than `max` bytes.
fn longer_than(v: &Vec<char>, max: usize) -> (r: bool)
    requires
        max < 0x1000,
    ensures
        r == (byte_len(v@) > max),
{
    let n = v.len();
    let mut acc: usize = 0;
    let mut i: usize = 0;
    assert(v@.subrange(0, n as int) =~= v@);
    while i < n
        invariant
            n == v@.len(),
            i <= n,
            acc <= max,
            max < 0x1000,
            acc + byte_len(v@.subrange(i as int, n as int)) == byte_len(v@),
        decreases n - i,
    {
        assert(v@.subrange(i as int, n as int).drop_first() =~= v@.subrange(i as int + 1, n as int));
        acc = acc + utf8_len_exec(v[i]);
        i = i + 1;
        if acc > max {
            return true;
        }
    }
    assert(v@.subrange(n as int, n as int) =~= Seq::<char>::empty());
    false
}

/// How many leading characters of `v` fit whole in `max` bytes.
fn front_count(v: &Vec<char>, max: usize) -> (r: usize)
    ensures
        r == front_chars(v@, max as int),
        r <= v@.len(),
{
    let n = v.len();
    let mut rem = max;
    let mut i: usize = 0;
    assert(v@.subrange(0, n as int) =~= v@);
    while i < n && utf8_len_exec(v[i]) <= rem
        invariant
            n == v@.len(),
            i <= n,
            rem <= max,
            front_chars(v@, max as int) == i + front_chars(v@.subrange(i as int, n as int), rem as int),
        decreases n - i,
    {
        let ghost t = v@.subrange(i as int, n as int);
        assert(t.drop_first() =~= v@.subrange(i as int + 1, n as int));
        rem = rem - utf8_len_exec(v[i]);
        i = i + 1;
    }
    i
}

/// How many trailing characters of `v` fit whole in `max` bytes.
fn back_count(v: &Vec<char>, max: usize) -> (r: usize)
    ensures
        r == back_chars(v@, max as int),
        r <= v@.len(),
{
    let n = v.len();
    let mut rem = max;
    let mut j: usize = n;
    assert(v@.subrange(0, n as int) =~= v@);
    while j > 0 && utf8_len_exec(v[j - 1]) <= rem
        invariant
            n == v@.len(),
            j <= n,
            rem <= max,
            back_chars(v@, max as int) == (n - j) + back_chars(v@.subrange(0, j as int), rem as int),
        decreases j,
    {
        let ghost t = v@.subrange(0, j as int);
        assert(t.drop_last() =~= v@.subrange(0, j as int - 1));
        rem = rem - utf8_len_exec(v[j - 1]);
        j = j - 1;
    }
    n - j
}

/// The id shortened for the list, cut at byte offsets as `str` slicing
/// does; the cuts must fall between characters (they do for ids, which are
/// ASCII).
pub fn peer_short(id: &str) -> (r: String)
    requires
        short_id_cuts(id@),
    ensures
        r@ == short_id(id@),
{
    let v = crate::text::chars_of(id);
    let n = v.len();
    if !longer_than(&v, 18) {
        crate::text::string_of(&v, 0, n)
    } else {
        let a = front_count(&v, 8);
        let b = back_count(&v, 6);
        let mut s = crate::text::string_of(&v, 0, a);
        push_char(&mut s, '…');
        let tail = crate::text::string_of(&v, n - b, n);
        push_text(&mut s, tail.as_str());
        assert(v@.subrange(0, n as int) =~= id@);
        s
    }
}

pub open spec fn source_label(source: Source) -> Seq<char> {
    match source {
        Source::Env => "FEATHRAI_PEERS"@,
        Source::Saved => "guardado"@,
        Source::Lan => "red interna"@,
    }
}

/// The list names where each peer came from: the environment variable,
/// `peers.txt` (saved from Settings), or the local network.
pub proof fn law_peer_source_names()
    ensures
        source_label(Source::Env) == "FEATHRAI_PEERS"@,
        source_label(Source::Saved) == "guardado"@,
        source_label(Source::Lan) == "red interna"@,
{
}

/// Where a peer came from, for the list.
pub fn peer_source(source: Source) -> (r: &'static str)
    ensures
        r@ == source_label(source),
{
    match source {
        Source::Env => "FEATHRAI_PEERS",
        Source::Saved => "guardado",
        Source::Lan => "red interna",
    }
}

pub open spec fn state_label(connected: bool, late: bool) -> Seq<char> {
    if !connected {
        "sin conexión"@
    } else if late {
        "conectado · se une a este espacio en el próximo arranque"@
    } else {
        "conectado"@
    }
}

/// A peer's state in the list says whether the dial reached it: a peer
/// that is not connected always reads `sin conexión`, whether late or not;
/// a connected one reads `conectado`, followed by a note when it came after
/// the stores opened.
pub proof fn law_peer_state_tells_connection(connected: bool, late: bool)
    ensures
        !connected ==> state_label(connected, late) == "sin conexión"@,
        connected && !late ==> state_label(connected, late) == "conectado"@,
        connected && late ==> state_label(connected, late)
            == "conectado · se une a este espacio en el próximo arranque"@,
        connected ==> state_label(connected, late).len() >= 9 && state_label(
            connected,
            late,
        ).subrange(0, 9) == "conectado"@,
        !connected ==> state_label(connected, late) != "conectado"@,
{
    reveal_strlit("conectado");
    reveal_strlit("sin conexión");
    reveal_strlit("conectado · se une a este espacio en el próximo arranque");
    assert("conectado · se une a este espacio en el próximo arranque"@.subrange(0, 9)
        =~= "conectado"@);
    assert("sin conexión"@ != "conectado"@) by {
        assert("sin conexión"@[0] != "conectado"@[0]);
    }
}

/// A peer's state, for the list.
pub fn peer_state(peer: &Peer) -> (r: &'static str)
    ensures
        r@ == state_label(peer.connected, peer.late),
{
    if !peer.connected {
        "sin conexión"
    } else if peer.late {
        "conectado · se une a este espacio en el próximo arranque"
    } else {
        "conectado"
    }
}


// ── Settings' messages ───────────────────────────────────────────────────────
/// The toast after a dial from Settings reached a peer.
pub fn connected_message(id: &str) -> (r: String)
    requires
        short_id_cuts(id@),
    ensures
        r@ == "Conectado con "@ + short_id(id@),
{
    let mut s = String::new();
    push_text(&mut s, "Conectado con ");
    let short = peer_short(id);
    push_text(&mut s, short.as_str());
    s
}

/// The toast after a new peer was saved but did not answer yet.
pub fn saved_unreached_message(id: &str) -> (r: String)
    requires
        short_id_cuts(id@),
    ensures
        r@ == short_id(id@) + " guardado, sin respuesta todavía (reintenta al arrancar)"@,
{
    let mut s = peer_short(id);
    push_text(&mut s, " guardado, sin respuesta todavía (reintenta al arrancar)");
    s
}

/// The toast after a peer was forgotten.
pub fn forgotten_message(id: &str) -> (r: String)
    requires
        short_id_cuts(id@),
    ensures
        r@ == short_id(id@) + " olvidado"@,
{
    let mut s = peer_short(id);
    push_text(&mut s, " olvidado");
    s
}

/// A toast that reports an error after a fixed lead-in.
pub fn error_message(lead: &str, error: &str) -> (r: String)
    ensures
        r@ == lead@ + error@,
{
    let mut s = String::new();
    push_text(&mut s, lead);
    push_text(&mut s, error);
    s
}

/// In ASCII text every byte offset up to its length falls between
/// characters, from either end.
proof fn lemma_ascii_cuts(s: Seq<char>, n: int)
    requires
        is_ascii_text(s),
        0 <= n <= s.len(),
    ensures
        front_cut(s, n),
        back_cut(s, n),
    decreases n,
{
    if n > 0 {
        assert((s[0] as u32) < 128);
        assert((s[s.len() - 1] as u32) < 128);
        let f = s.drop_first();
        let l = s.drop_last();
        assert forall|i: int| 0 <= i < f.len() implies (#[trigger] f[i] as u32) < 128 by {
            assert(f[i] == s[i + 1]);
        }
        assert forall|i: int| 0 <= i < l.len() implies (#[trigger] l[i] as u32) < 128 by {
            assert(l[i] == s[i]);
        }
        lemma_ascii_cuts(f, n - 1);
        lemma_ascii_cuts(l, n - 1);
    }
}

/// Canonical ids can be shortened for the list: they are ASCII, so the
/// cuts fall between characters.
pub proof fn lemma_endpoint_ids_cut_cleanly(id: Seq<char>)
    requires
        is_canonical_id(id),
    ensures
        is_ascii_text(id),
        short_id_cuts(id),
{
    assert forall|i: int| 0 <= i < id.len() implies (#[trigger] id[i] as u32) < 128 by {
        assert(is_hex_lower(id[i]));
    }
    lemma_ascii_cuts(id, 8);
    lemma_ascii_cuts(id, 6);
}

} // verus!
