use vstd::prelude::*;

use crate::bytes::{bytes_eq, copy_bytes};
use crate::media::{MediaType, MediaTypeView};
use crate::native::{AtomCollection, SelectionRequest, ATOM_NONE};
use crate::registry::{spec_lookup, AtomRegistry};

verus! {

/// The atom of the ATOM type itself, used for properties that hold lists
/// of atoms.
pub const XA_ATOM: u32 = 4;

// ---------------------------------------------------------------------
// The ownership table: what this process offers to peers.
// ---------------------------------------------------------------------
/// Index of the first entry stored under `f`, or -1 when none is.
pub open spec fn find_key(s: Seq<(MediaTypeView, Seq<u8>)>, f: MediaTypeView) -> int
    decreases s.len(),
{
    if s.len() == 0 {
        -1
    } else if s.first().0 == f {
        0
    } else {
        let r = find_key(s.drop_first(), f);
        if r < 0 {
            -1
        } else {
            r + 1
        }
    }
}

/// What `find_key` returns: either no entry is stored under `f`, or the
/// index of the first one.
pub proof fn lemma_find_key(s: Seq<(MediaTypeView, Seq<u8>)>, f: MediaTypeView)
    ensures
        find_key(s, f) == -1 ==> forall|i: int| 0 <= i < s.len() ==> (#[trigger] s[i]).0 != f,
        find_key(s, f) != -1 ==> {
            &&& 0 <= find_key(s, f) < s.len()
            &&& s[find_key(s, f)].0 == f
            &&& forall|i: int| 0 <= i < find_key(s, f) ==> (#[trigger] s[i]).0 != f
        },
    decreases s.len(),
{
    if s.len() > 0 {
        lemma_find_key(s.drop_first(), f);
        if s.first().0 != f {
            let r = find_key(s.drop_first(), f);
            if r == -1 {
                assert forall|i: int| 0 <= i < s.len() implies (#[trigger] s[i]).0 != f by {
                    if i > 0 {
                        assert(s.drop_first()[i - 1] == s[i]);
                    }
                }
            } else {
                assert(s.drop_first()[r] == s[r + 1]);
                assert forall|i: int| 0 <= i < r + 1 implies (#[trigger] s[i]).0 != f by {
                    if i > 0 {
                        assert(s.drop_first()[i - 1] == s[i]);
                    }
                }
            }
        }
    }
}

/// The table after one `store`: the first entry under the same format is
/// replaced in place, and a new format is appended.
pub open spec fn spec_stored(
    s: Seq<(MediaTypeView, Seq<u8>)>,
    f: MediaTypeView,
    d: Seq<u8>,
) -> Seq<(MediaTypeView, Seq<u8>)> {
    let j = find_key(s, f);
    if j < 0 {
        s.push((f, d))
    } else {
        s.update(j, (f, d))
    }
}

/// The clipboard ownership table: the formats this process has announced,
/// each with the bytes it will serve. Data is only moved when a peer asks
/// (pull model); `store` itself transfers nothing.
pub struct ClipboardOwner {
    entries: Vec<(MediaType, Vec<u8>)>,
}

impl ClipboardOwner {
    /// The stored (format, data) pairs, oldest first.
    pub closed spec fn contents(self) -> Seq<(MediaTypeView, Seq<u8>)> {
        self.entries@.map(|i: int, e: (MediaType, Vec<u8>)| (e.0@, e.1@))
    }

    pub fn new() -> (r: ClipboardOwner)
        ensures
            r.contents() == Seq::<(MediaTypeView, Seq<u8>)>::empty(),
    {
        let r = ClipboardOwner { entries: Vec::new() };
        proof {
            assert(r.contents() =~= Seq::<(MediaTypeView, Seq<u8>)>::empty());
        }
        r
    }

    /// Associates `data` with `format`, replacing any data stored under
    /// the same format before.
    pub fn store(&mut self, format: &MediaType, data: &[u8])
        ensures
            final(self).contents() == spec_stored(old(self).contents(), format@, data@),
    {
        proof {
            lemma_find_key(self.contents(), format@);
        }
        let n = self.entries.len();
        let mut i: usize = 0;
        while i < n
            invariant
                i <= n,
                n == self.entries@.len(),
                self == old(self),
                forall|j: int| 0 <= j < i ==> (#[trigger] old(self).contents()[j]).0 != format@,
            decreases n - i,
        {
            let matches = {
                let entry = &self.entries[i];
                bytes_eq(entry.0.essence().as_slice(), format.essence().as_slice())
                    && entry.0.is_utf8_text() == format.is_utf8_text()
            };
            if matches {
                proof {
                    assert(old(self).contents()[i as int].0 == format@);
                    lemma_find_key_first(old(self).contents(), format@, i as int);
                }
                let owned = MediaType::new(
                    copy_bytes(format.essence().as_slice()),
                    format.is_utf8_text(),
                );
                let stored = copy_bytes(data);
                self.entries.set(i, (owned, stored));
                proof {
                    assert(final(self).contents() =~= old(self).contents().update(
                        i as int,
                        (format@, data@),
                    ));
                }
                return ;
            }
            proof {
                assert(old(self).contents()[i as int].0 != format@);
            }
            i = i + 1;
        }
        proof {
            lemma_find_key(old(self).contents(), format@);
            assert(find_key(old(self).contents(), format@) == -1) by {
                if find_key(old(self).contents(), format@) != -1 {
                    assert(old(self).contents()[find_key(old(self).contents(), format@)].0
                        == format@);
                }
            }
        }
        let owned = MediaType::new(copy_bytes(format.essence().as_slice()), format.is_utf8_text());
        let stored = copy_bytes(data);
        self.entries.push((owned, stored));
        proof {
            assert(final(self).contents() =~= old(self).contents().push((format@, data@)));
        }
    }

    /// How many formats are on offer.
    pub fn len(&self) -> (r: usize)
        ensures
            r == self.contents().len(),
    {
        self.entries.len()
    }
}

/// If some entry's format equals `f` at index `i` and none does before it,
/// then `find_key` lands in `0..=i`.
proof fn lemma_find_key_first(s: Seq<(MediaTypeView, Seq<u8>)>, f: MediaTypeView, i: int)
    requires
        0 <= i < s.len(),
        s[i].0 == f,
        forall|j: int| 0 <= j < i ==> (#[trigger] s[j]).0 != f,
    ensures
        find_key(s, f) == i,
    decreases s.len(),
{
    if i > 0 {
        lemma_find_key_first(s.drop_first(), f, i - 1);
    }
}

// ---------------------------------------------------------------------
// Matching a requested target against the table.
// ---------------------------------------------------------------------
/// The legacy aliases that a UTF-8 text format also answers to.
pub open spec fn alias_atoms(atoms: AtomCollection) -> Seq<u32> {
    seq![atoms.utf8_string, atoms.mime_text_plain_utf8, atoms.string, atoms.text]
}

/// Whether one stored entry answers a request for `target`: either the
/// entry's format name resolves to that very atom, or the entry is UTF-8
/// text and `target` is one of the legacy text aliases.
pub open spec fn entry_matches(
    e: (MediaTypeView, Seq<u8>),
    reg: Seq<(Vec<u8>, u32)>,
    atoms: AtomCollection,
    target: u32,
) -> bool {
    ||| spec_lookup(reg, e.0.essence) == Some(target)
    ||| (e.0.utf8_text && (target == atoms.mime_text_plain_utf8 || target == atoms.utf8_string
        || target == atoms.string || target == atoms.text))
}

/// The target named in the reply: a request for the bare `TEXT` alias is
/// answered as `UTF8_STRING`; everything else echoes the request.
pub open spec fn match_reply_target(e0: MediaTypeView, atoms: AtomCollection, target: u32) -> u32 {
    if e0.utf8_text && target == atoms.text {
        atoms.utf8_string
    } else {
        target
    }
}

/// The first stored entry answering `target`, with the data it serves and
/// the target to name in the reply.
pub open spec fn spec_find_match(
    s: Seq<(MediaTypeView, Seq<u8>)>,
    reg: Seq<(Vec<u8>, u32)>,
    atoms: AtomCollection,
    target: u32,
) -> Option<(Seq<u8>, u32)>
    decreases s.len(),
{
    if s.len() == 0 {
        None
    } else {
        let r = spec_find_match(s.drop_last(), reg, atoms, target);
        if r is Some {
            r
        } else if entry_matches(s.last(), reg, atoms, target) {
            Some((s.last().1, match_reply_target(s.last().0, atoms, target)))
        } else {
            None
        }
    }
}

/// When no entry answers `target`, the match is empty.
pub proof fn lemma_find_match_none(
    s: Seq<(MediaTypeView, Seq<u8>)>,
    reg: Seq<(Vec<u8>, u32)>,
    atoms: AtomCollection,
    target: u32,
)
    requires
        forall|i: int| 0 <= i < s.len() ==> !entry_matches(#[trigger] s[i], reg, atoms, target),
    ensures
        spec_find_match(s, reg, atoms, target) is None,
    decreases s.len(),
{
    if s.len() > 0 {
        lemma_find_match_none(s.drop_last(), reg, atoms, target);
    }
}

/// The match is decided by the first answering entry.
pub proof fn lemma_find_match_first(
    s: Seq<(MediaTypeView, Seq<u8>)>,
    reg: Seq<(Vec<u8>, u32)>,
    atoms: AtomCollection,
    target: u32,
    k: int,
)
    requires
        0 <= k < s.len(),
        entry_matches(s[k], reg, atoms, target),
        forall|i: int| 0 <= i < k ==> !entry_matches(#[trigger] s[i], reg, atoms, target),
    ensures
        spec_find_match(s, reg, atoms, target) == Some(
            (s[k].1, match_reply_target(s[k].0, atoms, target)),
        ),
    decreases s.len(),
{
    if k == s.len() - 1 {
        lemma_find_match_none(s.drop_last(), reg, atoms, target);
    } else {
        lemma_find_match_first(s.drop_last(), reg, atoms, target, k);
    }
}

// ---------------------------------------------------------------------
// Serving a peer's request.
// ---------------------------------------------------------------------
/// Payload of one property write: raw bytes (format 8) or 32-bit words.
#[derive(Debug, Clone, PartialEq, Eq)]
pub enum PropPayload {
    Bytes(Vec<u8>),
    Words(Vec<u32>),
}

/// Spec-level payload.
pub enum PayloadV {
    Bytes(Seq<u8>),
    Words(Seq<u32>),
}

impl View for PropPayload {
    type V = PayloadV;

    closed spec fn view(&self) -> PayloadV {
        match self {
            PropPayload::Bytes(b) => PayloadV::Bytes(b@),
            PropPayload::Words(w) => PayloadV::Words(w@),
        }
    }
}

/// One property write the transport owes a requestor.
#[derive(Debug, Clone, PartialEq, Eq)]
pub struct PropertyWrite {
    pub window: u32,
    pub property: u32,
    pub type_atom: u32,
    pub payload: PropPayload,
}

/// Spec-level property write.
pub struct PropertyWriteV {
    pub window: u32,
    pub property: u32,
    pub type_atom: u32,
    pub payload: PayloadV,
}

impl View for PropertyWrite {
    type V = PropertyWriteV;

    closed spec fn view(&self) -> PropertyWriteV {
        PropertyWriteV {
            window: self.window,
            property: self.property,
            type_atom: self.type_atom,
            payload: self.payload@,
        }
    }
}

/// The `SelectionNotify` answer owed for every request, matched or not, so
/// a requestor can always tell "rejected" from "hung".
#[derive(Debug, Copy, Clone, PartialEq, Eq, Structural)]
pub struct SelectionNotifyOut {
    pub requestor: u32,
    pub selection: u32,
    pub target: u32,
    pub property: u32,
    pub time: u32,
}

/// Everything the transport must perform to answer one request: the
/// property writes, in order, then the notify event.
pub struct SelectionReply {
    pub writes: Vec<PropertyWrite>,
    pub notify: SelectionNotifyOut,
}

/// The views of a sequence of writes.
pub open spec fn writes_view(s: Seq<PropertyWrite>) -> Seq<PropertyWriteV> {
    s.map(|i: int, w: PropertyWrite| w@)
}

/// The atoms listed in answer to a capability (`TARGETS`) query for one
/// stored entry: its own format atom, when known, then the text aliases
/// when the entry is UTF-8 text.
pub open spec fn spec_entry_targets(
    e: (MediaTypeView, Seq<u8>),
    reg: Seq<(Vec<u8>, u32)>,
    atoms: AtomCollection,
) -> Seq<u32> {
    (match spec_lookup(reg, e.0.essence) {
        Some(a) => seq![a],
        None => Seq::<u32>::empty(),
    }) + (if e.0.utf8_text {
        alias_atoms(atoms)
    } else {
        Seq::<u32>::empty()
    })
}

pub open spec fn spec_targets_tail(
    s: Seq<(MediaTypeView, Seq<u8>)>,
    reg: Seq<(Vec<u8>, u32)>,
    atoms: AtomCollection,
) -> Seq<u32>
    decreases s.len(),
{
    if s.len() == 0 {
        Seq::<u32>::empty()
    } else {
        spec_targets_tail(s.drop_last(), reg, atoms) + spec_entry_targets(s.last(), reg, atoms)
    }
}

/// The full capability list: the three special targets, then per stored
/// entry its format atom and aliases, in table order.
pub open spec fn spec_targets_words(
    s: Seq<(MediaTypeView, Seq<u8>)>,
    reg: Seq<(Vec<u8>, u32)>,
    atoms: AtomCollection,
) -> Seq<u32> {
    seq![atoms.timestamp, atoms.targets, atoms.multiple] + spec_targets_tail(s, reg, atoms)
}

/// The writes owed for the sub-pairs of one batched (`MULTIPLE`) request:
/// each (target, property) pair, in order, is answered by the same handling
/// a top-level request gets — the timestamp query and the capability list
/// included — with an explicit "no data" marker for an unmatched target.
/// Pairs naming no property, or recursing into `MULTIPLE` itself, are
/// skipped.
pub open spec fn spec_pair_write(
    owner: Seq<(MediaTypeView, Seq<u8>)>,
    reg: Seq<(Vec<u8>, u32)>,
    atoms: AtomCollection,
    requestor: u32,
    pair: (u32, u32),
) -> Seq<PropertyWriteV> {
    let (t, p) = pair;
    if p == ATOM_NONE || t == atoms.multiple {
        Seq::<PropertyWriteV>::empty()
    } else if t == atoms.timestamp {
        seq![
            PropertyWriteV {
                window: requestor,
                property: p,
                type_atom: t,
                payload: PayloadV::Words(seq![0u32]),
            },
        ]
    } else if t == atoms.targets {
        seq![
            PropertyWriteV {
                window: requestor,
                property: p,
                type_atom: XA_ATOM,
                payload: PayloadV::Words(spec_targets_words(owner, reg, atoms)),
            },
        ]
    } else {
        match spec_find_match(owner, reg, atoms, t) {
            Some(m) => seq![
                PropertyWriteV {
                    window: requestor,
                    property: p,
                    type_atom: t,
                    payload: PayloadV::Bytes(m.0),
                },
            ],
            None => seq![
                PropertyWriteV {
                    window: requestor,
                    property: p,
                    type_atom: XA_ATOM,
                    payload: PayloadV::Words(seq![ATOM_NONE]),
                },
            ],
        }
    }
}

pub open spec fn spec_multiple_writes(
    owner: Seq<(MediaTypeView, Seq<u8>)>,
    reg: Seq<(Vec<u8>, u32)>,
    atoms: AtomCollection,
    requestor: u32,
    pairs: Seq<(u32, u32)>,
) -> Seq<PropertyWriteV>
    decreases pairs.len(),
{
    if pairs.len() == 0 {
        Seq::<PropertyWriteV>::empty()
    } else {
        spec_multiple_writes(owner, reg, atoms, requestor, pairs.drop_last()) + spec_pair_write(
            owner,
            reg,
            atoms,
            requestor,
            pairs.last(),
        )
    }
}

/// Looks the requested target up in the ownership table: the served bytes
/// and the target to name in the reply, or `None` when nothing matches.
fn serve_target(
    owner: &ClipboardOwner,
    registry: &AtomRegistry,
    atoms: &AtomCollection,
    target: u32,
) -> (r: Option<(Vec<u8>, u32)>)
    ensures
        match r {
            Some(m) => spec_find_match(owner.contents(), registry.entries(), *atoms, target)
                == Some((m.0@, m.1)),
            None => spec_find_match(owner.contents(), registry.entries(), *atoms, target) is None,
        },
{
    let ghost s = owner.contents();
    let n = owner.entries.len();
    let mut i: usize = 0;
    while i < n
        invariant
            i <= n,
            n == owner.entries@.len(),
            n == s.len(),
            s == owner.contents(),
            forall|j: int|
                0 <= j < i ==> !entry_matches(#[trigger] s[j], registry.entries(), *atoms, target),
        decreases n - i,
    {
        let entry = &owner.entries[i];
        let own_atom_matches = match registry.lookup(entry.0.essence().as_slice()) {
            Some(a) => a == target,
            None => false,
        };
        let alias_matches = entry.0.is_utf8_text() && (target == atoms.mime_text_plain_utf8
            || target == atoms.utf8_string || target == atoms.string || target == atoms.text);
        if own_atom_matches || alias_matches {
            let reply_target = if entry.0.is_utf8_text() && target == atoms.text {
                atoms.utf8_string
            } else {
                target
            };
            proof {
                assert(entry_matches(s[i as int], registry.entries(), *atoms, target));
                assert(reply_target == match_reply_target(s[i as int].0, *atoms, target));
                lemma_find_match_first(s, registry.entries(), *atoms, target, i as int);
            }
            return Some((copy_bytes(entry.1.as_slice()), reply_target));
        }
        proof {
            assert(!entry_matches(s[i as int], registry.entries(), *atoms, target));
        }
        i = i + 1;
    }
    proof {
        lemma_find_match_none(s, registry.entries(), *atoms, target);
    }
    None
}

/// Builds the capability list served for a `TARGETS` query.
fn build_targets_words(
    owner: &ClipboardOwner,
    registry: &AtomRegistry,
    atoms: &AtomCollection,
) -> (r: Vec<u32>)
    ensures
        r@ == spec_targets_words(owner.contents(), registry.entries(), *atoms),
{
    let ghost s = owner.contents();
    let mut words: Vec<u32> = Vec::new();
    words.push(atoms.timestamp);
    words.push(atoms.targets);
    words.push(atoms.multiple);
    proof {
        assert(s.take(0) =~= Seq::<(MediaTypeView, Seq<u8>)>::empty());
        assert(words@ =~= spec_targets_words(s.take(0), registry.entries(), *atoms));
    }
    let n = owner.entries.len();
    let mut i: usize = 0;
    while i < n
        invariant
            i <= n,
            n == owner.entries@.len(),
            n == s.len(),
            s == owner.contents(),
            words@ == spec_targets_words(s.take(i as int), registry.entries(), *atoms),
        decreases n - i,
    {
        let entry = &owner.entries[i];
        match registry.lookup(entry.0.essence().as_slice()) {
            Some(a) => words.push(a),
            None => (),
        }
        if entry.0.is_utf8_text() {
            words.push(atoms.utf8_string);
            words.push(atoms.mime_text_plain_utf8);
            words.push(atoms.string);
            words.push(atoms.text);
        }
        proof {
            assert(s.take(i + 1).drop_last() =~= s.take(i as int));
            assert(s.take(i + 1).last() == s[i as int]);
            assert(words@ =~= spec_targets_words(s.take(i + 1), registry.entries(), *atoms));
        }
        i = i + 1;
    }
    proof {
        assert(s.take(n as int) =~= s);
    }
    words
}

/// Answers one request from a peer.
///
/// Three special query types are served — the capability list (`TARGETS`),
/// the timestamp query, and the batched query (`MULTIPLE`), whose sub-pairs
/// `multiple_pairs` must carry and which recurses into this same handling
/// per pair — plus direct format lookups against the ownership table. An
/// unmatched request is answered with an explicit "no data" notify
/// (property cleared to none), never with silence.
pub fn process_selection_request(
    owner: &ClipboardOwner,
    registry: &AtomRegistry,
    atoms: &AtomCollection,
    req: &SelectionRequest,
    multiple_pairs: &Vec<(u32, u32)>,
) -> (r: SelectionReply)
    ensures
        r.notify.requestor == req.requestor,
        r.notify.selection == req.selection,
        r.notify.time == req.time,
        req.target == atoms.timestamp ==> {
            &&& writes_view(r.writes@) == seq![
                PropertyWriteV {
                    window: req.requestor,
                    property: req.property,
                    type_atom: req.target,
                    payload: PayloadV::Words(seq![0u32]),
                },
            ]
            &&& r.notify.target == req.target
            &&& r.notify.property == req.property
        },
        req.target != atoms.timestamp && req.target == atoms.targets ==> {
            &&& writes_view(r.writes@) == seq![
                PropertyWriteV {
                    window: req.requestor,
                    property: req.property,
                    type_atom: XA_ATOM,
                    payload: PayloadV::Words(
                        spec_targets_words(owner.contents(), registry.entries(), *atoms),
                    ),
                },
            ]
            &&& r.notify.target == req.target
            &&& r.notify.property == req.property
        },
        req.target != atoms.timestamp && req.target != atoms.targets && req.target
            == atoms.multiple ==> {
            &&& r.notify.target == req.target
            &&& r.notify.property == req.property
            &&& (req.property == ATOM_NONE ==> writes_view(r.writes@) == Seq::<
                PropertyWriteV,
            >::empty())
            &&& (req.property != ATOM_NONE ==> writes_view(r.writes@) == spec_multiple_writes(
                owner.contents(),
                registry.entries(),
                *atoms,
                req.requestor,
                multiple_pairs@,
            ) + seq![
                PropertyWriteV {
                    window: req.requestor,
                    property: req.property,
                    type_atom: XA_ATOM,
                    payload: PayloadV::Words(seq![atoms.null]),
                },
            ])
        },
        req.target != atoms.timestamp && req.target != atoms.targets && req.target
            != atoms.multiple ==> match spec_find_match(
            owner.contents(),
            registry.entries(),
            *atoms,
            req.target,
        ) {
            Some(m) => {
                &&& writes_view(r.writes@) == seq![
                    PropertyWriteV {
                        window: req.requestor,
                        property: req.property,
                        type_atom: req.target,
                        payload: PayloadV::Bytes(m.0),
                    },
                ]
                &&& r.notify.target == m.1
                &&& r.notify.property == req.property
            },
            None => {
                &&& writes_view(r.writes@) == Seq::<PropertyWriteV>::empty()
                &&& r.notify.target == req.target
                &&& r.notify.property == ATOM_NONE
            },
        },
{
    let mut notify = SelectionNotifyOut {
        requestor: req.requestor,
        selection: req.selection,
        target: req.target,
        property: req.property,
        time: req.time,
    };
    let mut writes: Vec<PropertyWrite> = Vec::new();
    if req.target == atoms.timestamp {
        let mut stamp: Vec<u32> = Vec::new();
        stamp.push(0u32);
        writes.push(
            PropertyWrite {
                window: req.requestor,
                property: req.property,
                type_atom: req.target,
                payload: PropPayload::Words(stamp),
            },
        );
        proof {
            assert(writes_view(writes@) =~= seq![
                PropertyWriteV {
                    window: req.requestor,
                    property: req.property,
                    type_atom: req.target,
                    payload: PayloadV::Words(seq![0u32]),
                },
            ]);
        }
    } else if req.target == atoms.targets {
        let words = build_targets_words(owner, registry, atoms);
        writes.push(
            PropertyWrite {
                window: req.requestor,
                property: req.property,
                type_atom: XA_ATOM,
                payload: PropPayload::Words(words),
            },
        );
        proof {
            assert(writes_view(writes@) =~= seq![
                PropertyWriteV {
                    window: req.requestor,
                    property: req.property,
                    type_atom: XA_ATOM,
                    payload: PayloadV::Words(
                        spec_targets_words(owner.contents(), registry.entries(), *atoms),
                    ),
                },
            ]);
        }
    } else if req.target == atoms.multiple {
        if req.property != ATOM_NONE {
            let ghost pairs = multiple_pairs@;
            let n = multiple_pairs.len();
            let mut i: usize = 0;
            proof {
                assert(pairs.take(0) =~= Seq::<(u32, u32)>::empty());
                assert(writes_view(writes@) =~= spec_multiple_writes(
                    owner.contents(),
                    registry.entries(),
                    *atoms,
                    req.requestor,
                    pairs.take(0),
                ));
            }
            while i < n
                invariant
                    i <= n,
                    n == pairs.len(),
                    pairs == multiple_pairs@,
                    writes_view(writes@) == spec_multiple_writes(
                        owner.contents(),
                        registry.entries(),
                        *atoms,
                        req.requestor,
                        pairs.take(i as int),
                    ),
                decreases n - i,
            {
                let (t, p) = multiple_pairs[i];
                if p != ATOM_NONE && t != atoms.multiple {
                    if t == atoms.timestamp {
                        let mut stamp: Vec<u32> = Vec::new();
                        stamp.push(0u32);
                        writes.push(
                            PropertyWrite {
                                window: req.requestor,
                                property: p,
                                type_atom: t,
                                payload: PropPayload::Words(stamp),
                            },
                        );
                    } else if t == atoms.targets {
                        let words = build_targets_words(owner, registry, atoms);
                        writes.push(
                            PropertyWrite {
                                window: req.requestor,
                                property: p,
                                type_atom: XA_ATOM,
                                payload: PropPayload::Words(words),
                            },
                        );
                    } else {
                        match serve_target(owner, registry, atoms, t) {
                            Some(m) => {
                                writes.push(
                                    PropertyWrite {
                                        window: req.requestor,
                                        property: p,
                                        type_atom: t,
                                        payload: PropPayload::Bytes(m.0),
                                    },
                                );
                            },
                            None => {
                                let mut none_word: Vec<u32> = Vec::new();
                                none_word.push(ATOM_NONE);
                                writes.push(
                                    PropertyWrite {
                                        window: req.requestor,
                                        property: p,
                                        type_atom: XA_ATOM,
                                        payload: PropPayload::Words(none_word),
                                    },
                                );
                            },
                        }
                    }
                }
                proof {
                    assert(pairs.take(i + 1).drop_last() =~= pairs.take(i as int));
                    assert(pairs.take(i + 1).last() == pairs[i as int]);
                    assert(writes_view(writes@) =~= spec_multiple_writes(
                        owner.contents(),
                        registry.entries(),
                        *atoms,
                        req.requestor,
                        pairs.take(i + 1),
                    ));
                }
                i = i + 1;
            }
            let mut null_word: Vec<u32> = Vec::new();
            null_word.push(atoms.null);
            writes.push(
                PropertyWrite {
                    window: req.requestor,
                    property: req.property,
                    type_atom: XA_ATOM,
                    payload: PropPayload::Words(null_word),
                },
            );
            proof {
                assert(pairs.take(n as int) =~= pairs);
                assert(writes_view(writes@) =~= spec_multiple_writes(
                    owner.contents(),
                    registry.entries(),
                    *atoms,
                    req.requestor,
                    pairs,
                ) + seq![
                    PropertyWriteV {
                        window: req.requestor,
                        property: req.property,
                        type_atom: XA_ATOM,
                        payload: PayloadV::Words(seq![atoms.null]),
                    },
                ]);
            }
        } else {
            proof {
                assert(writes_view(writes@) =~= Seq::<PropertyWriteV>::empty());
            }
        }
    } else {
        match serve_target(owner, registry, atoms, req.target) {
            Some(m) => {
                notify.target = m.1;
                writes.push(
                    PropertyWrite {
                        window: req.requestor,
                        property: req.property,
                        type_atom: req.target,
                        payload: PropPayload::Bytes(m.0),
                    },
                );
                proof {
                    assert(writes_view(writes@) =~= seq![
                        PropertyWriteV {
                            window: req.requestor,
                            property: req.property,
                            type_atom: req.target,
                            payload: PayloadV::Bytes(
                                spec_find_match(
                                    owner.contents(),
                                    registry.entries(),
                                    *atoms,
                                    req.target,
                                )->Some_0.0,
                            ),
                        },
                    ]);
                }
            },
            None => {
                notify.property = ATOM_NONE;
                proof {
                    assert(writes_view(writes@) =~= Seq::<PropertyWriteV>::empty());
                }
            },
        }
    }
    SelectionReply { writes, notify }
}

/// The conversion targets a load for `media` tries, in order: the format's
/// own atom first, then — for UTF-8 text only — the legacy text aliases.
pub open spec fn spec_conversion_targets(
    media: MediaTypeView,
    interned: u32,
    atoms: AtomCollection,
) -> Seq<u32> {
    seq![interned] + (if media.utf8_text {
        seq![atoms.utf8_string, atoms.string, atoms.text]
    } else {
        Seq::<u32>::empty()
    })
}

/// The fixed fallback sequence of conversion targets for one load request.
pub fn conversion_targets(media: &MediaType, interned: u32, atoms: &AtomCollection) -> (r: Vec<
    u32,
>)
    ensures
        r@ == spec_conversion_targets(media@, interned, *atoms),
{
    let mut r: Vec<u32> = Vec::new();
    r.push(interned);
    if media.is_utf8_text() {
        r.push(atoms.utf8_string);
        r.push(atoms.string);
        r.push(atoms.text);
    }
    proof {
        assert(r@ =~= spec_conversion_targets(media@, interned, *atoms));
    }
    r
}

// ---------------------------------------------------------------------
// Loading from a peer: the bounded-wait state machine.
// ---------------------------------------------------------------------
/// The centralized deadline abstraction every bounded clipboard wait uses:
/// a budget of cooperative-yield ticks. It expires only once the budget is
/// exhausted, never before.
#[derive(Debug, Copy, Clone, PartialEq, Eq, Structural)]
pub struct DeadlineGauge {
    remaining: u32,
}

impl DeadlineGauge {
    pub closed spec fn remaining(self) -> u32 {
        self.remaining
    }

    pub fn new(budget: u32) -> (r: DeadlineGauge)
        ensures
            r.remaining() == budget,
    {
        DeadlineGauge { remaining: budget }
    }

    /// Burns one tick. Reports expiry exactly when the budget was already
    /// exhausted, so a wait with budget `n` gets `n` full ticks before it
    /// gives up.
    pub fn tick(&mut self) -> (expired: bool)
        ensures
            expired == (old(self).remaining() == 0),
            old(self).remaining() == 0 ==> final(self).remaining() == 0,
            old(self).remaining() > 0 ==> final(self).remaining() == old(self).remaining() - 1,
    {
        if self.remaining == 0 {
            true
        } else {
            self.remaining = self.remaining - 1;
            false
        }
    }
}

/// Where one load negotiation stands.
#[derive(Debug, Copy, Clone, PartialEq, Eq, Structural)]
pub enum LoadPhase {
    /// Conversion requested; waiting for the owner's reply.
    AwaitReply,
    /// Owner honoured the request; the reply property must be fetched.
    AwaitHeader,
    /// Incremental transfer: waiting for the next chunk to be signalled.
    AwaitChunkSignal,
    /// Incremental transfer: the signalled chunk must be fetched.
    AwaitChunk,
    Done,
}

/// What the driver must do next.
#[derive(Debug, Clone, PartialEq, Eq)]
pub enum LoadStep {
    /// Keep pumping events.
    Continue,
    /// Fetch the reply property (its type and full contents), delete it,
    /// and hand both to `on_header`.
    FetchHeader,
    /// Fetch and delete the announced chunk, and hand it to `on_chunk`.
    FetchChunk,
    /// The negotiation is over with this result.
    Finish(Option<Vec<u8>>),
}

/// Spec-level state of one load negotiation. `budget` is the full
/// per-wait allowance; `remaining` counts down within the current bounded
/// wait and is restored to `budget` whenever a new incremental-transfer
/// iteration begins, so every iteration is bounded by the same timeout.
pub struct LoadView {
    pub phase: LoadPhase,
    pub acc: Seq<u8>,
    pub remaining: u32,
    pub budget: u32,
}

/// One cooperative wait tick.
pub open spec fn spec_idle(v: LoadView) -> LoadView {
    if v.phase is AwaitReply || v.phase is AwaitChunkSignal {
        if v.remaining == 0 {
            LoadView { phase: LoadPhase::Done, ..v }
        } else {
            LoadView { remaining: (v.remaining - 1) as u32, ..v }
        }
    } else {
        v
    }
}

/// The owner's reply: honoured or rejected.
pub open spec fn spec_reply(v: LoadView, ok: bool) -> LoadView {
    if v.phase is AwaitReply {
        if ok {
            LoadView { phase: LoadPhase::AwaitHeader, ..v }
        } else {
            LoadView { phase: LoadPhase::Done, ..v }
        }
    } else {
        v
    }
}

/// The fetched reply property: either the whole payload at once, or the
/// incremental-transfer sentinel, which starts the first chunk wait with a
/// fresh allowance.
pub open spec fn spec_header(v: LoadView, is_incr: bool) -> LoadView {
    if v.phase is AwaitHeader {
        if is_incr {
            LoadView { phase: LoadPhase::AwaitChunkSignal, remaining: v.budget, ..v }
        } else {
            LoadView { phase: LoadPhase::Done, ..v }
        }
    } else {
        v
    }
}

/// A chunk was announced.
pub open spec fn spec_chunk_signal(v: LoadView) -> LoadView {
    if v.phase is AwaitChunkSignal {
        LoadView { phase: LoadPhase::AwaitChunk, ..v }
    } else {
        v
    }
}

/// A fetched chunk: empty ends the transfer; anything else accumulates
/// and the wait for the next chunk starts with a fresh allowance.
pub open spec fn spec_chunk(v: LoadView, chunk: Seq<u8>) -> LoadView {
    if v.phase is AwaitChunk {
        if chunk.len() == 0 {
            LoadView { phase: LoadPhase::Done, ..v }
        } else {
            LoadView {
                phase: LoadPhase::AwaitChunkSignal,
                acc: v.acc + chunk,
                remaining: v.budget,
                ..v
            }
        }
    } else {
        v
    }
}

/// One clipboard load negotiation: `Idle -> AwaitingOwnerReply ->
/// (Satisfied | TimedOut | Rejected)`, with the nested incremental-transfer
/// sub-state when the owner streams the payload. It lives only for the one
/// request. Events in the wrong phase are ignored rather than trusted: a
/// clipboard peer is untrusted and must not be able to derail this
/// process, so anything malformed decays into `None` or a timeout.
pub struct LoadMachine {
    phase: LoadPhase,
    acc: Vec<u8>,
    gauge: DeadlineGauge,
    budget: u32,
}

impl View for LoadMachine {
    type V = LoadView;

    closed spec fn view(&self) -> LoadView {
        LoadView {
            phase: self.phase,
            acc: self.acc@,
            remaining: self.gauge.remaining(),
            budget: self.budget,
        }
    }
}

impl LoadMachine {
    /// Starts one load negotiation, provided the display system reported a
    /// clipboard owner at all: with no owner the clipboard is empty and
    /// the load is `None` immediately, without consuming any of the wait
    /// budget.
    pub fn begin(owner_present: bool, budget: u32) -> (r: Option<LoadMachine>)
        ensures
            owner_present <==> r is Some,
            r matches Some(m) ==> m@ == (LoadView {
                phase: LoadPhase::AwaitReply,
                acc: Seq::<u8>::empty(),
                remaining: budget,
                budget,
            }),
    {
        if owner_present {
            let m = LoadMachine {
                phase: LoadPhase::AwaitReply,
                acc: Vec::new(),
                gauge: DeadlineGauge::new(budget),
                budget,
            };
            proof {
                assert(m@.acc =~= Seq::<u8>::empty());
            }
            Some(m)
        } else {
            None
        }
    }

    /// One cooperative yield while waiting: burns a tick, and gives up
    /// with `None` only once the deadline is exceeded.
    pub fn on_idle(&mut self) -> (r: LoadStep)
        ensures
            final(self)@ == spec_idle(old(self)@),
            (old(self)@.phase is AwaitReply || old(self)@.phase is AwaitChunkSignal) && old(
                self,
            )@.remaining == 0 ==> (r matches LoadStep::Finish(o) && o is None),
            !((old(self)@.phase is AwaitReply || old(self)@.phase is AwaitChunkSignal) && old(
                self,
            )@.remaining == 0) ==> r is Continue,
    {
        match self.phase {
            LoadPhase::AwaitReply | LoadPhase::AwaitChunkSignal => {
                if self.gauge.tick() {
                    self.phase = LoadPhase::Done;
                    LoadStep::Finish(None)
                } else {
                    LoadStep::Continue
                }
            },
            _ => LoadStep::Continue,
        }
    }

    /// The owner's conversion reply arrived: fetch the property when it
    /// was honoured, finish with `None` when it was rejected.
    pub fn on_selection_notify(&mut self, ok: bool) -> (r: LoadStep)
        ensures
            final(self)@ == spec_reply(old(self)@, ok),
            old(self)@.phase is AwaitReply && ok ==> r is FetchHeader,
            old(self)@.phase is AwaitReply && !ok ==> (r matches LoadStep::Finish(o) && o is None),
            !(old(self)@.phase is AwaitReply) ==> r is Continue,
    {
        if let LoadPhase::AwaitReply = self.phase {
            if ok {
                self.phase = LoadPhase::AwaitHeader;
                LoadStep::FetchHeader
            } else {
                self.phase = LoadPhase::Done;
                LoadStep::Finish(None)
            }
        } else {
            LoadStep::Continue
        }
    }

    /// The fetched reply property: a plain payload finishes the load with
    /// exactly those bytes; the incremental sentinel switches to chunked
    /// transfer.
    pub fn on_header(&mut self, is_incr: bool, data: Vec<u8>) -> (r: LoadStep)
        ensures
            final(self)@ == spec_header(old(self)@, is_incr),
            old(self)@.phase is AwaitHeader && !is_incr ==> (r matches LoadStep::Finish(o) && o
                == Some(data)),
            old(self)@.phase is AwaitHeader && is_incr ==> r is Continue,
            !(old(self)@.phase is AwaitHeader) ==> r is Continue,
    {
        if let LoadPhase::AwaitHeader = self.phase {
            if is_incr {
                self.phase = LoadPhase::AwaitChunkSignal;
                self.gauge = DeadlineGauge::new(self.budget);
                LoadStep::Continue
            } else {
                self.phase = LoadPhase::Done;
                LoadStep::Finish(Some(data))
            }
        } else {
            LoadStep::Continue
        }
    }

    /// The transport announced that the next chunk is ready.
    pub fn on_chunk_signal(&mut self) -> (r: LoadStep)
        ensures
            final(self)@ == spec_chunk_signal(old(self)@),
            old(self)@.phase is AwaitChunkSignal ==> r is FetchChunk,
            !(old(self)@.phase is AwaitChunkSignal) ==> r is Continue,
    {
        if let LoadPhase::AwaitChunkSignal = self.phase {
            self.phase = LoadPhase::AwaitChunk;
            LoadStep::FetchChunk
        } else {
            LoadStep::Continue
        }
    }

    /// One fetched chunk: a zero-length chunk completes the transfer with
    /// the concatenation of everything received; anything else is appended
    /// and the wait resumes.
    pub fn on_chunk(&mut self, chunk: &[u8]) -> (r: LoadStep)
        ensures
            final(self)@ == spec_chunk(old(self)@, chunk@),
            old(self)@.phase is AwaitChunk && chunk@.len() == 0 ==> (r matches LoadStep::Finish(o)
                && o matches Some(d) && d@ == old(self)@.acc),
            old(self)@.phase is AwaitChunk && chunk@.len() > 0 ==> r is Continue,
            !(old(self)@.phase is AwaitChunk) ==> r is Continue,
    {
        if let LoadPhase::AwaitChunk = self.phase {
            if chunk.len() == 0 {
                self.phase = LoadPhase::Done;
                let out = copy_bytes(self.acc.as_slice());
                LoadStep::Finish(Some(out))
            } else {
                self.acc.extend_from_slice(chunk);
                self.phase = LoadPhase::AwaitChunkSignal;
                self.gauge = DeadlineGauge::new(self.budget);
                proof {
                    assert(self.acc@ =~= old(self)@.acc + chunk@);
                }
                LoadStep::Continue
            }
        } else {
            LoadStep::Continue
        }
    }

    pub fn phase(&self) -> (r: LoadPhase)
        ensures
            r == self@.phase,
    {
        self.phase
    }
}

// ---------------------------------------------------------------------
// The laws of the negotiation.
// ---------------------------------------------------------------------
/// The state after a whole run of announced-and-fetched chunks.
pub open spec fn feed_chunks(v: LoadView, chunks: Seq<Seq<u8>>) -> LoadView
    decreases chunks.len(),
{
    if chunks.len() == 0 {
        v
    } else {
        feed_chunks(spec_chunk(spec_chunk_signal(v), chunks.first()), chunks.drop_first())
    }
}

/// The concatenation of a run of chunks.
pub open spec fn concat_bytes(chunks: Seq<Seq<u8>>) -> Seq<u8>
    decreases chunks.len(),
{
    if chunks.len() == 0 {
        Seq::<u8>::empty()
    } else {
        chunks.first() + concat_bytes(chunks.drop_first())
    }
}

/// Incremental transfer accumulates: streaming any run of non-empty
/// chunks leaves the machine waiting for the next signal with their
/// concatenation accumulated — each new wait starting with the full
/// allowance — and a zero-length terminator then finishes the load with
/// exactly that concatenation.
pub proof fn lemma_incremental_transfer(v: LoadView, chunks: Seq<Seq<u8>>)
    requires
        v.phase is AwaitChunkSignal,
        forall|i: int| 0 <= i < chunks.len() ==> (#[trigger] chunks[i]).len() > 0,
    ensures
        feed_chunks(v, chunks).phase is AwaitChunkSignal,
        feed_chunks(v, chunks).acc == v.acc + concat_bytes(chunks),
        feed_chunks(v, chunks).budget == v.budget,
        chunks.len() == 0 ==> feed_chunks(v, chunks).remaining == v.remaining,
        chunks.len() > 0 ==> feed_chunks(v, chunks).remaining == v.budget,
        spec_chunk(spec_chunk_signal(feed_chunks(v, chunks)), Seq::<u8>::empty()).phase is Done,
    decreases chunks.len(),
{
    if chunks.len() == 0 {
        assert(v.acc + concat_bytes(chunks) =~= v.acc);
    } else {
        let w = spec_chunk(spec_chunk_signal(v), chunks.first());
        assert(w.phase is AwaitChunkSignal);
        assert(w.acc == v.acc + chunks.first());
        lemma_incremental_transfer(w, chunks.drop_first());
        assert(v.acc + chunks.first() + concat_bytes(chunks.drop_first()) =~= v.acc + concat_bytes(
            chunks,
        ));
    }
}

/// The clipboard round trip: after `store(format, data)`, a request for
/// the format's own atom finds exactly `data` — provided the format's name
/// resolves to that atom and no other stored entry also answers it — and a
/// load whose owner honours the conversion then finishes with exactly the
/// bytes the reply property carries.
pub proof fn lemma_clipboard_round_trip(
    contents: Seq<(MediaTypeView, Seq<u8>)>,
    reg: Seq<(Vec<u8>, u32)>,
    atoms: AtomCollection,
    f: MediaTypeView,
    data: Seq<u8>,
    fmt_atom: u32,
    budget: u32,
)
    requires
        spec_lookup(reg, f.essence) == Some(fmt_atom),
        forall|i: int|
            0 <= i < contents.len() && (#[trigger] contents[i]).0 != f ==> !entry_matches(
                contents[i],
                reg,
                atoms,
                fmt_atom,
            ),
    ensures
        spec_find_match(spec_stored(contents, f, data), reg, atoms, fmt_atom) matches Some(m)
            && m.0 == data,
        ({
            let v0 = LoadView {
                phase: LoadPhase::AwaitReply,
                acc: Seq::<u8>::empty(),
                remaining: budget,
                budget,
            };
            spec_reply(v0, true).phase is AwaitHeader && spec_header(
                spec_reply(v0, true),
                false,
            ).phase is Done
        }),
{
    let stored = spec_stored(contents, f, data);
    lemma_find_key(contents, f);
    let j = find_key(contents, f);
    if j < 0 {
        assert(stored == contents.push((f, data)));
        assert forall|i: int| 0 <= i < contents.len() implies !entry_matches(
            #[trigger] stored[i],
            reg,
            atoms,
            fmt_atom,
        ) by {
            assert(stored[i] == contents[i]);
            assert(contents[i].0 != f);
        }
        assert(stored[contents.len() as int] == (f, data));
        assert(entry_matches((f, data), reg, atoms, fmt_atom));
        lemma_find_match_first(stored, reg, atoms, fmt_atom, contents.len() as int);
    } else {
        assert(stored == contents.update(j, (f, data)));
        assert forall|i: int| 0 <= i < j implies !entry_matches(
            #[trigger] stored[i],
            reg,
            atoms,
            fmt_atom,
        ) by {
            assert(stored[i] == contents[i]);
            assert(contents[i].0 != f);
        }
        assert(stored[j] == (f, data));
        assert(entry_matches((f, data), reg, atoms, fmt_atom));
        lemma_find_match_first(stored, reg, atoms, fmt_atom, j);
    }
}

} // verus!
