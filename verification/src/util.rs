//! Textual helpers shared by the mining runners: the configuration suffix
//! used in result file names, the payload text of a mined block, and the
//! deterministic demo transactions it lists.

use vstd::prelude::*;
use vstd::string::StringExecFns;
use crate::strutil::{dec_nat, u64_to_string};

verus! {

/// The file-name suffix for a run configuration: difficulty and block count,
/// then the optional transaction and worker counts.
pub open spec fn config_suffix(
    difficulty: nat,
    num_blocks: nat,
    txs_per_block: Option<usize>,
    num_workers: Option<usize>,
) -> Seq<char> {
    "d"@ + dec_nat(difficulty) + "_b"@ + dec_nat(num_blocks) + (match txs_per_block {
        Some(t) => "_t"@ + dec_nat(t as nat),
        None => Seq::<char>::empty(),
    }) + (match num_workers {
        Some(w) => "_w"@ + dec_nat(w as nat),
        None => Seq::<char>::empty(),
    })
}

pub fn get_config_suffix(
    difficulty: usize,
    num_blocks: usize,
    txs_per_block: Option<usize>,
    num_workers: Option<usize>,
) -> (r: String)
    ensures
        r@ == config_suffix(difficulty as nat, num_blocks as nat, txs_per_block, num_workers),
{
    let mut out = "d".to_owned();
    let d = u64_to_string(difficulty as u64);
    out.append(d.as_str());
    out.append("_b");
    let b = u64_to_string(num_blocks as u64);
    out.append(b.as_str());
    if let Some(t) = txs_per_block {
        out.append("_t");
        let ts = u64_to_string(t as u64);
        out.append(ts.as_str());
    }
    if let Some(w) = num_workers {
        out.append("_w");
        let ws = u64_to_string(w as u64);
        out.append(ws.as_str());
    }
    out
}

/// The comma-separated join of a list of strings.
pub open spec fn join_comma(ss: Seq<Seq<char>>) -> Seq<char>
    decreases ss.len(),
{
    if ss.len() == 0 {
        Seq::<char>::empty()
    } else if ss.len() == 1 {
        ss[0]
    } else {
        join_comma(ss.drop_last()) + ", "@ + ss.last()
    }
}

/// The payload text of a block: its index, and either a bare marker or the
/// transaction count with the listed transactions.
pub open spec fn block_data_text(index: nat, txs: Seq<Seq<char>>) -> Seq<char> {
    if txs.len() == 0 {
        "Block "@ + dec_nat(index) + " data"@
    } else {
        "Block "@ + dec_nat(index) + " with "@ + dec_nat(txs.len()) + " transactions: "@
            + join_comma(txs)
    }
}

pub fn create_block_data(index: usize, transactions: &[String]) -> (r: String)
    ensures
        r@ == block_data_text(index as nat, transactions.deep_view()),
{
    let ghost txs = transactions.deep_view();
    let mut out = "Block ".to_owned();
    let idx = u64_to_string(index as u64);
    out.append(idx.as_str());
    if transactions.len() == 0 {
        out.append(" data");
        return out;
    }
    out.append(" with ");
    let count = u64_to_string(transactions.len() as u64);
    out.append(count.as_str());
    out.append(" transactions: ");
    out.append(transactions[0].as_str());
    proof {
        assert(txs[0] == transactions[0]@);
        assert(join_comma(txs.take(1)) == txs.take(1)[0]);
        assert(txs.take(1)[0] == txs[0]);
    }
    let mut i: usize = 1;
    while i < transactions.len()
        invariant
            1 <= i <= transactions.len(),
            txs == transactions.deep_view(),
            txs.len() == transactions.len(),
            out@ == "Block "@ + dec_nat(index as nat) + " with "@ + dec_nat(txs.len()) +
                " transactions: "@ + join_comma(txs.take(i as int)),
        decreases transactions.len() - i,
    {
        out.append(", ");
        out.append(transactions[i].as_str());
        proof {
            let next = txs.take(i as int + 1);
            assert(next.drop_last() =~= txs.take(i as int));
            assert(next.last() == txs[i as int]);
            assert(txs[i as int] == transactions[i as int]@);
            assert(join_comma(next) == join_comma(txs.take(i as int)) + ", "@ + txs[i as int]);
        }
        i += 1;
    }
    proof {
        assert(txs.take(txs.len() as int) =~= txs);
    }
    out
}

/// One line of the deterministic demo transaction list: transaction `i` of
/// block `b` moves `(i + 1)` tenths from Alice to Bob.
pub open spec fn demo_tx_line(block_index: nat, i: nat) -> Seq<char> {
    "TX"@ + dec_nat(block_index) + "-"@ + dec_nat(i) + ": Alice -> Bob: "@ + dec_nat(
        ((i + 1) / 10) as nat,
    ) + "."@ + dec_nat(((i + 1) % 10) as nat) + " BTC"@
}

/// The deterministic demo transactions listed in a mined block's payload.
pub fn generate_transactions(block_index: usize, num_transactions: usize) -> (r: Vec<String>)
    ensures
        r@.len() == num_transactions,
        forall|i: int|
            0 <= i < num_transactions ==> (#[trigger] r@[i])@ == demo_tx_line(
                block_index as nat,
                i as nat,
            ),
{
    let mut out: Vec<String> = Vec::new();
    let mut i: usize = 0;
    while i < num_transactions
        invariant
            i <= num_transactions,
            num_transactions <= usize::MAX,
            out@.len() == i,
            forall|j: int|
                0 <= j < i ==> (#[trigger] out@[j])@ == demo_tx_line(block_index as nat, j as nat),
        decreases num_transactions - i,
    {
        let mut line = "TX".to_owned();
        let b = u64_to_string(block_index as u64);
        line.append(b.as_str());
        line.append("-");
        let idx = u64_to_string(i as u64);
        line.append(idx.as_str());
        line.append(": Alice -> Bob: ");
        let tenth_whole = u64_to_string(((i as u64) + 1) / 10);
        line.append(tenth_whole.as_str());
        line.append(".");
        let tenth_frac = u64_to_string(((i as u64) + 1) % 10);
        line.append(tenth_frac.as_str());
        line.append(" BTC");
        out.push(line);
        i += 1;
    }
    out
}

} // verus!
