//! Decoding of the packed arrays that state and coordinate events carry.
//!
//! Such an array is a run of 4-byte words in the byte order of the machine
//! that the compositor runs on. A state array holds one word per flag.
use vstd::prelude::*;
use cosmic_protocols::toplevel_info::v1::client::zcosmic_toplevel_handle_v1;
use cosmic_protocols::workspace::v1::client::zcosmic_workspace_handle_v1;

verus! {

/// The order of the four bytes of a word.
#[derive(Clone, Copy, Debug, PartialEq, Eq, Structural)]
pub enum ByteOrder {
    /// Least significant byte first.
    Little,
    /// Most significant byte first.
    Big,
}

/// Why a packed array was not decoded.
#[derive(Clone, Copy, Debug, PartialEq, Eq, Structural)]
pub enum DecodeError {
    /// The array's length is not a multiple of four.
    Length,
    /// The array holds this word, which stands for no flag.
    Unmapped(u32),
}

/// A state flag of a window.
#[derive(Clone, Copy, Debug, PartialEq, Eq, Structural)]
pub enum ToplevelState {
    Maximized,
    Minimized,
    Activated,
    Fullscreen,
    Sticky,
}

/// A state flag of a workspace.
#[derive(Clone, Copy, Debug, PartialEq, Eq, Structural)]
pub enum WorkspaceState {
    Active,
    Urgent,
    Hidden,
}

/// The value of four bytes read in the given order.
pub open spec fn word_of(b0: u8, b1: u8, b2: u8, b3: u8, order: ByteOrder) -> int {
    match order {
        ByteOrder::Little => b0 + 256 * b1 + 65536 * b2 + 16777216 * b3,
        ByteOrder::Big => b3 + 256 * b2 + 65536 * b1 + 16777216 * b0,
    }
}

/// The `k`-th word of a packed array.
pub open spec fn word_at(bytes: Seq<u8>, order: ByteOrder, k: int) -> u32 {
    word_of(bytes[4 * k], bytes[4 * k + 1], bytes[4 * k + 2], bytes[4 * k + 3], order) as u32
}

/// The words of a packed array whose length is a multiple of four.
pub open spec fn words(bytes: Seq<u8>, order: ByteOrder) -> Seq<u32> {
    Seq::new((bytes.len() / 4) as nat, |k: int| word_at(bytes, order, k))
}

/// The window flag that a word stands for.
pub open spec fn toplevel_state_of(word: u32) -> Option<ToplevelState> {
    if word == 0 {
        Some(ToplevelState::Maximized)
    } else if word == 1 {
        Some(ToplevelState::Minimized)
    } else if word == 2 {
        Some(ToplevelState::Activated)
    } else if word == 3 {
        Some(ToplevelState::Fullscreen)
    } else if word == 4 {
        Some(ToplevelState::Sticky)
    } else {
        None
    }
}

/// The workspace flag that a word stands for.
pub open spec fn workspace_state_of(word: u32) -> Option<WorkspaceState> {
    if word == 0 {
        Some(WorkspaceState::Active)
    } else if word == 1 {
        Some(WorkspaceState::Urgent)
    } else if word == 2 {
        Some(WorkspaceState::Hidden)
    } else {
        None
    }
}

/// The index of the first word of `ws` that stands for no window flag, or the
/// length of `ws` where every word stands for one.
pub open spec fn first_unmapped_toplevel(ws: Seq<u32>) -> int
    decreases ws.len(),
{
    if ws.len() == 0 || toplevel_state_of(ws[0]) is None {
        0
    } else {
        1 + first_unmapped_toplevel(ws.drop_first())
    }
}

/// The index of the first word of `ws` that stands for no workspace flag, or
/// the length of `ws` where every word stands for one.
pub open spec fn first_unmapped_workspace(ws: Seq<u32>) -> int
    decreases ws.len(),
{
    if ws.len() == 0 || workspace_state_of(ws[0]) is None {
        0
    } else {
        1 + first_unmapped_workspace(ws.drop_first())
    }
}

/// What a packed array of window flags decodes to.
pub open spec fn toplevel_states_of(bytes: Seq<u8>, order: ByteOrder) -> Result<
    Seq<ToplevelState>,
    DecodeError,
> {
    let ws = words(bytes, order);
    let bad = first_unmapped_toplevel(ws);
    if bytes.len() % 4 != 0 {
        Err(DecodeError::Length)
    } else if bad < ws.len() {
        Err(DecodeError::Unmapped(ws[bad]))
    } else {
        Ok(Seq::new(ws.len(), |k: int| toplevel_state_of(ws[k])->Some_0))
    }
}

/// What a packed array of workspace flags decodes to.
pub open spec fn workspace_states_of(bytes: Seq<u8>, order: ByteOrder) -> Result<
    Seq<WorkspaceState>,
    DecodeError,
> {
    let ws = words(bytes, order);
    let bad = first_unmapped_workspace(ws);
    if bytes.len() % 4 != 0 {
        Err(DecodeError::Length)
    } else if bad < ws.len() {
        Err(DecodeError::Unmapped(ws[bad]))
    } else {
        Ok(Seq::new(ws.len(), |k: int| workspace_state_of(ws[k])->Some_0))
    }
}

/// What a packed array of coordinates decodes to.
pub open spec fn coordinates_of(bytes: Seq<u8>, order: ByteOrder) -> Result<Seq<u32>, DecodeError> {
    if bytes.len() % 4 != 0 {
        Err(DecodeError::Length)
    } else {
        Ok(words(bytes, order))
    }
}

/// The byte order in which the bytes 1, 0, 0, 0 read as the word `probe`:
/// the order with the least significant byte first where the word is 1, and
/// the other order where it is not.
pub open spec fn order_of_probe(probe: u32) -> ByteOrder {
    if probe == 1 {
        ByteOrder::Little
    } else {
        ByteOrder::Big
    }
}

/// The view of a decoding result: the decoded items as a sequence.
pub open spec fn seq_result<T>(r: Result<Vec<T>, DecodeError>) -> Result<Seq<T>, DecodeError> {
    match r {
        Ok(v) => Ok(v@),
        Err(e) => Err(e),
    }
}

/// `u32::from_ne_bytes`: the four bytes read in the machine's own order, which
/// is one of the two orders; nothing says which.
#[verifier::external_body]
fn native_word(b0: u8, b1: u8, b2: u8, b3: u8) -> (w: u32)
    ensures
        w == word_of(b0, b1, b2, b3, ByteOrder::Little) || w == word_of(
            b0,
            b1,
            b2,
            b3,
            ByteOrder::Big,
        ),
{
    u32::from_ne_bytes([b0, b1, b2, b3])
}

/// `TryFrom<u32>` of the window-state enumeration of `cosmic_protocols`: the
/// words 0 to 4 stand for the five flags in the order of [`ToplevelState`],
/// every other word for none.
#[verifier::external_body]
fn toplevel_state_from_word(word: u32) -> (r: Option<ToplevelState>)
    ensures
        r == toplevel_state_of(word),
{
    match zcosmic_toplevel_handle_v1::State::try_from(word) {
        Ok(zcosmic_toplevel_handle_v1::State::Maximized) => Some(ToplevelState::Maximized),
        Ok(zcosmic_toplevel_handle_v1::State::Minimized) => Some(ToplevelState::Minimized),
        Ok(zcosmic_toplevel_handle_v1::State::Activated) => Some(ToplevelState::Activated),
        Ok(zcosmic_toplevel_handle_v1::State::Fullscreen) => Some(ToplevelState::Fullscreen),
        Ok(zcosmic_toplevel_handle_v1::State::Sticky) => Some(ToplevelState::Sticky),
        _ => None,
    }
}

/// `TryFrom<u32>` of the workspace-state enumeration of `cosmic_protocols`:
/// the words 0 to 2 stand for the three flags in the order of
/// [`WorkspaceState`], every other word for none.
#[verifier::external_body]
fn workspace_state_from_word(word: u32) -> (r: Option<WorkspaceState>)
    ensures
        r == workspace_state_of(word),
{
    match zcosmic_workspace_handle_v1::State::try_from(word) {
        Ok(zcosmic_workspace_handle_v1::State::Active) => Some(WorkspaceState::Active),
        Ok(zcosmic_workspace_handle_v1::State::Urgent) => Some(WorkspaceState::Urgent),
        Ok(zcosmic_workspace_handle_v1::State::Hidden) => Some(WorkspaceState::Hidden),
        _ => None,
    }
}

impl ByteOrder {
    /// The byte order of this machine: the order that [`ByteOrder::from_probe`]
    /// tells from the word as which the machine reads the bytes 1, 0, 0, 0.
    pub fn native() -> (order: ByteOrder) {
        let probe: u32 = native_word(1, 0, 0, 0);
        ByteOrder::from_probe(probe)
    }

    /// The byte order of a machine that reads the bytes 1, 0, 0, 0 as the word
    /// `probe`.
    pub fn from_probe(probe: u32) -> (order: ByteOrder)
        ensures
            order == order_of_probe(probe),
    {
        if probe == 1 {
            ByteOrder::Little
        } else {
            ByteOrder::Big
        }
    }
}

/// The probe tells the two orders apart: from the word as which the bytes
/// 1, 0, 0, 0 read in an order, [`order_of_probe`] gives that order back.
pub proof fn lemma_probe_tells_order(order: ByteOrder)
    ensures
        order_of_probe(word_of(1, 0, 0, 0, order) as u32) == order,
        word_of(1, 0, 0, 0, order_of_probe(word_of(1, 0, 0, 0, order) as u32)) == word_of(
            1,
            0,
            0,
            0,
            order,
        ),
{
}

/// Reads four bytes as one word.
pub fn word(b0: u8, b1: u8, b2: u8, b3: u8, order: ByteOrder) -> (w: u32)
    ensures
        w == word_of(b0, b1, b2, b3, order),
{
    match order {
        ByteOrder::Little => b0 as u32 + 256 * (b1 as u32) + 65536 * (b2 as u32) + 16777216 * (
        b3 as u32),
        ByteOrder::Big => b3 as u32 + 256 * (b2 as u32) + 65536 * (b1 as u32) + 16777216 * (
        b0 as u32),
    }
}

/// Splits a packed array into its words.
pub fn decode_words(bytes: &[u8], order: ByteOrder) -> (r: Result<Vec<u32>, DecodeError>)
    ensures
        seq_result(r) == coordinates_of(bytes@, order),
{
    let n: usize = bytes.len();
    if n % 4 != 0 {
        return Err(DecodeError::Length);
    }
    let count: usize = n / 4;
    let mut out: Vec<u32> = Vec::new();
    let mut k: usize = 0;
    while k < count
        invariant
            n == bytes@.len(),
            n % 4 == 0,
            count == n / 4,
            0 <= k <= count,
            out@.len() == k,
            forall|j: int| 0 <= j < k ==> out@[j] == word_at(bytes@, order, j),
        decreases count - k,
    {
        let w: u32 = word(
            bytes[4 * k],
            bytes[4 * k + 1],
            bytes[4 * k + 2],
            bytes[4 * k + 3],
            order,
        );
        out.push(w);
        k = k + 1;
    }
    assert(out@ =~= words(bytes@, order));
    Ok(out)
}

/// Where the first `k` words of `ws` stand for window flags and the next one,
/// if there is one, does not, `k` is the index that [`first_unmapped_toplevel`]
/// names.
pub proof fn lemma_first_unmapped_toplevel(ws: Seq<u32>, k: int)
    requires
        0 <= k <= ws.len(),
        forall|j: int| 0 <= j < k ==> toplevel_state_of(#[trigger] ws[j]) is Some,
        k < ws.len() ==> toplevel_state_of(ws[k]) is None,
    ensures
        first_unmapped_toplevel(ws) == k,
    decreases ws.len(),
{
    if k > 0 {
        let rest = ws.drop_first();
        assert(toplevel_state_of(ws[0]) is Some);
        assert forall|j: int|
            0 <= j < k - 1 implies toplevel_state_of(#[trigger] rest[j]) is Some by {
            assert(rest[j] == ws[j + 1]);
        }
        lemma_first_unmapped_toplevel(rest, k - 1);
    }
}

/// The same for workspace flags and [`first_unmapped_workspace`].
pub proof fn lemma_first_unmapped_workspace(ws: Seq<u32>, k: int)
    requires
        0 <= k <= ws.len(),
        forall|j: int| 0 <= j < k ==> workspace_state_of(#[trigger] ws[j]) is Some,
        k < ws.len() ==> workspace_state_of(ws[k]) is None,
    ensures
        first_unmapped_workspace(ws) == k,
    decreases ws.len(),
{
    if k > 0 {
        let rest = ws.drop_first();
        assert(workspace_state_of(ws[0]) is Some);
        assert forall|j: int|
            0 <= j < k - 1 implies workspace_state_of(#[trigger] rest[j]) is Some by {
            assert(rest[j] == ws[j + 1]);
        }
        lemma_first_unmapped_workspace(rest, k - 1);
    }
}

/// Decodes a packed array of window flags: one flag per word, in the array's
/// order. An array of a wrong length is refused, and so is one with a word
/// that stands for no flag; the error names the first such word.
pub fn decode_toplevel_states(bytes: &[u8], order: ByteOrder) -> (r: Result<
    Vec<ToplevelState>,
    DecodeError,
>)
    ensures
        seq_result(r) == toplevel_states_of(bytes@, order),
{
    let ws: Vec<u32> = match decode_words(bytes, order) {
        Ok(ws) => ws,
        Err(e) => {
            return Err(e);
        },
    };
    let mut out: Vec<ToplevelState> = Vec::new();
    let mut k: usize = 0;
    while k < ws.len()
        invariant
            bytes@.len() % 4 == 0,
            ws@ == words(bytes@, order),
            0 <= k <= ws@.len(),
            out@.len() == k,
            forall|j: int| 0 <= j < k ==> toplevel_state_of(#[trigger] ws@[j]) == Some(out@[j]),
        decreases ws@.len() - k,
    {
        match toplevel_state_from_word(ws[k]) {
            Some(flag) => {
                out.push(flag);
            },
            None => {
                proof {
                    lemma_first_unmapped_toplevel(ws@, k as int);
                }
                return Err(DecodeError::Unmapped(ws[k]));
            },
        }
        k = k + 1;
    }
    proof {
        lemma_first_unmapped_toplevel(ws@, k as int);
        assert(out@ =~= Seq::new(ws@.len(), |k: int| toplevel_state_of(ws@[k])->Some_0));
    }
    Ok(out)
}

/// Decodes a packed array of workspace flags: one flag per word, in the
/// array's order. An array of a wrong length is refused, and so is one with a
/// word that stands for no flag; the error names the first such word.
pub fn decode_workspace_states(bytes: &[u8], order: ByteOrder) -> (r: Result<
    Vec<WorkspaceState>,
    DecodeError,
>)
    ensures
        seq_result(r) == workspace_states_of(bytes@, order),
{
    let ws: Vec<u32> = match decode_words(bytes, order) {
        Ok(ws) => ws,
        Err(e) => {
            return Err(e);
        },
    };
    let mut out: Vec<WorkspaceState> = Vec::new();
    let mut k: usize = 0;
    while k < ws.len()
        invariant
            bytes@.len() % 4 == 0,
            ws@ == words(bytes@, order),
            0 <= k <= ws@.len(),
            out@.len() == k,
            forall|j: int| 0 <= j < k ==> workspace_state_of(#[trigger] ws@[j]) == Some(out@[j]),
        decreases ws@.len() - k,
    {
        match workspace_state_from_word(ws[k]) {
            Some(flag) => {
                out.push(flag);
            },
            None => {
                proof {
                    lemma_first_unmapped_workspace(ws@, k as int);
                }
                return Err(DecodeError::Unmapped(ws[k]));
            },
        }
        k = k + 1;
    }
    proof {
        lemma_first_unmapped_workspace(ws@, k as int);
        assert(out@ =~= Seq::new(ws@.len(), |k: int| workspace_state_of(ws@[k])->Some_0));
    }
    Ok(out)
}

} // verus!
