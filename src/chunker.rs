use vstd::prelude::*;
use vstd::slice::slice_subrange;
use vstd::slice::slice_to_vec;
use crate::tokenizer::cl100k_text;
use crate::tokenizer::cl100k_tokens;
use crate::tokenizer::decode_tokens;
use crate::tokenizer::encode_text;

verus! {

/// Consecutive windows of `m` ids over `s`; the last one may be shorter,
/// and an empty sequence has no window at all.
pub open spec fn windows(s: Seq<u32>, m: nat) -> Seq<Seq<u32>>
    decreases s.len(),
{
    if s.len() == 0 || m == 0 {
        Seq::empty()
    } else if s.len() <= m {
        seq![s]
    } else {
        seq![s.take(m as int)] + windows(s.skip(m as int), m)
    }
}

/// One token-bounded piece of a longer text.
pub struct Chunk {
    pub index: usize,
    pub token_ids: Vec<u32>,
    pub decoded_text: String,
}

/// Why a text could not be cut into chunks.
#[derive(PartialEq, Eq, Structural, Debug, Clone, Copy)]
pub enum ChunkError {
    /// The chunk with this index does not decode to text.
    Undecodable(usize),
}

proof fn lemma_windows_step(s: Seq<u32>, m: nat, i: int)
    requires
        m > 0,
        0 <= i < s.len(),
    ensures
        windows(s.subrange(i, s.len() as int), m) == seq![
            s.subrange(i, if i + m < s.len() { i + m } else { s.len() as int }),
        ] + windows(
            s.subrange(if i + m < s.len() { i + m } else { s.len() as int }, s.len() as int),
            m,
        ),
{
    let rest = s.subrange(i, s.len() as int);
    if i + m < s.len() {
        assert(rest.take(m as int) =~= s.subrange(i, i + m));
        assert(rest.skip(m as int) =~= s.subrange(i + m, s.len() as int));
    } else {
        assert(s.subrange(s.len() as int, s.len() as int) =~= Seq::<u32>::empty());
        assert(windows(Seq::<u32>::empty(), m) =~= Seq::<Seq<u32>>::empty());
        assert(seq![rest] + Seq::<Seq<u32>>::empty() =~= seq![rest]);
    }
}

/// Cuts `tokens` into consecutive windows of `max_tokens` ids.
pub fn split_tokens(tokens: &Vec<u32>, max_tokens: usize) -> (r: Vec<Vec<u32>>)
    requires
        max_tokens > 0,
    ensures
        r@.len() == windows(tokens@, max_tokens as nat).len(),
        forall|k: int| 0 <= k < r@.len() ==> #[trigger] r@[k]@ == windows(tokens@, max_tokens as nat)[k],
{
    let n = tokens.len();
    let ghost m = max_tokens as nat;
    let mut out: Vec<Vec<u32>> = Vec::new();
    let mut i: usize = 0;
    assert(tokens@.subrange(0, n as int) =~= tokens@);
    while i < n
        invariant
            i <= n == tokens@.len(),
            max_tokens > 0,
            m == max_tokens as nat,
            out@.len() + windows(tokens@.subrange(i as int, n as int), m).len()
                == windows(tokens@, m).len(),
            forall|k: int| 0 <= k < out@.len() ==> #[trigger] out@[k]@ == windows(tokens@, m)[k],
            forall|k: int|
                0 <= k < windows(tokens@.subrange(i as int, n as int), m).len() ==>
                    #[trigger] windows(tokens@.subrange(i as int, n as int), m)[k]
                    == windows(tokens@, m)[out@.len() + k],
        decreases n - i,
    {
        let end: usize = if n - i > max_tokens { i + max_tokens } else { n };
        proof {
            lemma_windows_step(tokens@, m, i as int);
        }
        let ghost before = windows(tokens@.subrange(i as int, n as int), m);
        let ghost after = windows(tokens@.subrange(end as int, n as int), m);
        let piece = slice_to_vec(slice_subrange(tokens.as_slice(), i, end));
        assert(before[0] == windows(tokens@, m)[out@.len() as int]);
        assert forall|k: int| 0 <= k < after.len() implies #[trigger] after[k]
            == windows(tokens@, m)[out@.len() + 1 + k] by {
            assert(after[k] == before[k + 1]);
        }
        out.push(piece);
        i = end;
    }
    assert(tokens@.subrange(n as int, n as int) =~= Seq::<u32>::empty());
    out
}

/// Splits `text` into chunks of at most `max_tokens` cl100k_base tokens,
/// each decoded back to text on its own. Fails, with the index of the first
/// offending chunk, where a chunk does not decode.
pub fn chunk_text(text: &str, max_tokens: usize) -> (r: Result<Vec<Chunk>, ChunkError>)
    requires
        max_tokens > 0,
    ensures
        ({
            let ws = windows(cl100k_tokens(text@), max_tokens as nat);
            match r {
                Ok(chunks) => {
                    &&& chunks@.len() == ws.len()
                    &&& forall|k: int|
                        0 <= k < chunks@.len() ==> {
                            &&& (#[trigger] chunks@[k]).index == k
                            &&& chunks@[k].token_ids@ == ws[k]
                            &&& cl100k_text(ws[k]) == Some(chunks@[k].decoded_text@)
                        }
                },
                Err(ChunkError::Undecodable(j)) => {
                    &&& j < ws.len()
                    &&& cl100k_text(ws[j as int]) is None
                    &&& forall|k: int| 0 <= k < j ==> #[trigger] cl100k_text(ws[k]) is Some
                },
            }
        }),
        r is Ok <==> forall|k: int|
            0 <= k < windows(cl100k_tokens(text@), max_tokens as nat).len()
                ==> #[trigger] cl100k_text(windows(cl100k_tokens(text@), max_tokens as nat)[k]) is Some,
{
    let tokens = encode_text(text);
    let pieces = split_tokens(&tokens, max_tokens);
    let ghost ws = windows(tokens@, max_tokens as nat);
    let mut chunks: Vec<Chunk> = Vec::new();
    let mut k: usize = 0;
    while k < pieces.len()
        invariant
            k <= pieces@.len() == ws.len(),
            ws == windows(cl100k_tokens(text@), max_tokens as nat),
            forall|j: int| 0 <= j < pieces@.len() ==> #[trigger] pieces@[j]@ == ws[j],
            chunks@.len() == k,
            forall|j: int|
                0 <= j < k ==> {
                    &&& (#[trigger] chunks@[j]).index == j
                    &&& chunks@[j].token_ids@ == ws[j]
                    &&& cl100k_text(ws[j]) == Some(chunks@[j].decoded_text@)
                },
        decreases pieces.len() - k,
    {
        let piece = &pieces[k];
        match decode_tokens(piece.as_slice()) {
            Some(decoded) => {
                chunks.push(Chunk { index: k, token_ids: piece.clone(), decoded_text: decoded });
            },
            None => {
                assert forall|j: int| 0 <= j < k implies #[trigger] cl100k_text(ws[j]) is Some by {
                    assert(cl100k_text(ws[j]) == Some(chunks@[j].decoded_text@));
                }
                return Err(ChunkError::Undecodable(k));
            },
        }
        k = k + 1;
    }
    assert forall|j: int| 0 <= j < ws.len() implies #[trigger] cl100k_text(ws[j]) is Some by {
        assert(cl100k_text(ws[j]) == Some(chunks@[j].decoded_text@));
    }
    Ok(chunks)
}

/// Joining the windows of a sequence, in order, gives the sequence back.
pub proof fn lemma_windows_rebuild(s: Seq<u32>, m: nat)
    requires
        m > 0,
    ensures
        windows(s, m).flatten() == s,
    decreases s.len(),
{
    if s.len() == 0 {
        assert(windows(s, m).flatten() =~= s);
    } else if s.len() <= m {
        let ws = windows(s, m);
        assert(ws.drop_first() =~= Seq::<Seq<u32>>::empty());
        assert(ws.drop_first().flatten() =~= Seq::<u32>::empty());
        assert(ws.flatten() == ws.first() + ws.drop_first().flatten());
        assert(ws.flatten() =~= s);
    } else {
        lemma_windows_rebuild(s.skip(m as int), m);
        let ws = windows(s, m);
        assert(ws.drop_first() =~= windows(s.skip(m as int), m));
        assert(s.take(m as int) + s.skip(m as int) =~= s);
    }
}

/// The number of windows is the number of ids divided by the window size,
/// rounded up; it is zero for an empty sequence.
pub proof fn lemma_windows_count(s: Seq<u32>, m: nat)
    requires
        m > 0,
    ensures
        windows(s, m).len() == (s.len() + m - 1) / (m as int),
        s.len() == 0 ==> windows(s, m).len() == 0,
    decreases s.len(),
{
    let n = s.len() as int;
    let d = m as int;
    if n == 0 {
        vstd::arithmetic::div_mod::lemma_basic_div(d - 1, d);
    } else if n <= d {
        vstd::arithmetic::div_mod::lemma_div_plus_one(n - 1, d);
        vstd::arithmetic::div_mod::lemma_basic_div(n - 1, d);
    } else {
        lemma_windows_count(s.skip(m as int), m);
        vstd::arithmetic::div_mod::lemma_div_plus_one(n - d + d - 1, d);
        assert(d + (n - d + d - 1) == n + d - 1);
    }
}

/// The number of chunks of a text is its number of tokens divided by the
/// chunk size, rounded up; an empty encoding gives no chunk.
pub proof fn lemma_chunk_count(text: Seq<char>, max_tokens: nat)
    requires
        max_tokens > 0,
    ensures
        windows(cl100k_tokens(text), max_tokens).len() == (cl100k_tokens(text).len() + max_tokens
            - 1) / (max_tokens as int),
        cl100k_tokens(text).len() == 0 ==> windows(cl100k_tokens(text), max_tokens).len() == 0,
{
    lemma_windows_count(cl100k_tokens(text), max_tokens);
}

/// Chunking loses no token: the ids of the chunks, joined in order, are the
/// encoding of the whole text.
pub proof fn lemma_chunks_rebuild_encoding(text: Seq<char>, max_tokens: nat)
    requires
        max_tokens > 0,
    ensures
        windows(cl100k_tokens(text), max_tokens).flatten() == cl100k_tokens(text),
{
    lemma_windows_rebuild(cl100k_tokens(text), max_tokens);
}

} // verus!
