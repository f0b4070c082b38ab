//! The diagnostic report of a transaction: a fixed layout of lines for
//! reading, which no decoder takes back.

use crate::decimal::{decimal_text, push_decimal};
use crate::hex_text::{encode_hex, hex_text};
use crate::input::{TransactionInput, TransactionInputView};
use crate::transaction::{BitcoinTransaction, BitcoinTransactionView};
use vstd::prelude::*;
use vstd::string::StringExecFns;

verus! {

/// The bytes in decimal, separated by a comma and a space.
pub open spec fn byte_list_items(bytes: Seq<u8>) -> Seq<char>
    decreases bytes.len(),
{
    if bytes.len() == 0 {
        Seq::empty()
    } else if bytes.len() == 1 {
        decimal_text(bytes[0] as nat)
    } else {
        byte_list_items(bytes.drop_last()) + ", "@ + decimal_text(bytes.last() as nat)
    }
}

/// A script as the report shows it: the name of the type, then its one field
/// with the bytes as a bracketed list.
pub open spec fn script_debug_text(bytes: Seq<u8>) -> Seq<char> {
    "Script { bytes: ["@ + byte_list_items(bytes) + "] }"@
}

/// The four lines of the report for the input with the given number.
pub open spec fn input_report(number: nat, input: TransactionInputView) -> Seq<char> {
    "    Input "@ + decimal_text(number) + ":\n"@ + "      Previous Output: Txid: "@ + hex_text(
        input.previous_output.txid,
    ) + ", Vout: "@ + decimal_text(input.previous_output.vout as nat) + "\n"@
        + "      ScriptSig ("@ + decimal_text(input.script_sig.bytes.len()) + " bytes): "@
        + script_debug_text(input.script_sig.bytes) + "\n"@ + "      Sequence: "@ + decimal_text(
        input.sequence as nat,
    ) + "\n"@
}

/// The lines of the report for `inputs`, which are numbered from 1.
pub open spec fn inputs_report(inputs: Seq<TransactionInputView>) -> Seq<char>
    decreases inputs.len(),
{
    if inputs.len() == 0 {
        Seq::empty()
    } else {
        inputs_report(inputs.drop_last()) + input_report(inputs.len(), inputs.last())
    }
}

/// The whole report: a heading, the version, the lock time, then the inputs.
pub open spec fn transaction_report(transaction: BitcoinTransactionView) -> Seq<char> {
    "BitcoinTransaction:\n"@ + "  Version: "@ + decimal_text(transaction.version as nat) + "\n"@
        + "  Lock Time: "@ + decimal_text(transaction.lock_time as nat) + "\n"@ + "  Inputs:\n"@
        + inputs_report(transaction.inputs)
}

/// Appends a script as the report shows it.
fn push_script_debug(out: &mut String, bytes: &[u8])
    ensures
        final(out)@ == old(out)@ + script_debug_text(bytes@),
{
    out.append("Script { bytes: [");
    let ghost before = out@;
    let mut i: usize = 0;
    assert(out@ =~= before + byte_list_items(bytes@.take(0)));
    while i < bytes.len()
        invariant
            i <= bytes.len(),
            out@ == before + byte_list_items(bytes@.take(i as int)),
        decreases bytes.len() - i,
    {
        let ghost so_far = out@;
        if i > 0 {
            out.append(", ");
        }
        push_decimal(out, bytes[i] as u64);
        proof {
            let done = bytes@.take(i + 1);
            assert(done.drop_last() =~= bytes@.take(i as int));
            assert(out@ =~= before + byte_list_items(done));
        }
        i += 1;
    }
    assert(bytes@.take(i as int) =~= bytes@);
    out.append("] }");
    assert(out@ =~= old(out)@ + script_debug_text(bytes@));
}

/// Appends the four lines of the report for one input.
fn push_input_report(out: &mut String, number: usize, input: &TransactionInput)
    ensures
        final(out)@ == old(out)@ + input_report(number as nat, input@),
{
    out.append("    Input ");
    push_decimal(out, number as u64);
    out.append(":\n");
    out.append("      Previous Output: Txid: ");
    let txid = encode_hex(input.previous_output.txid.0.as_slice());
    out.append(txid.as_str());
    out.append(", Vout: ");
    push_decimal(out, input.previous_output.vout as u64);
    out.append("\n");
    out.append("      ScriptSig (");
    push_decimal(out, input.script_sig.bytes.len() as u64);
    out.append(" bytes): ");
    push_script_debug(out, input.script_sig.bytes.as_slice());
    out.append("\n");
    out.append("      Sequence: ");
    push_decimal(out, input.sequence as u64);
    out.append("\n");
    assert(out@ =~= old(out)@ + input_report(number as nat, input@));
}

impl BitcoinTransaction {
    /// The diagnostic report of the transaction.
    pub fn report(&self) -> (text: String)
        ensures
            text@ == transaction_report(self@),
    {
        let mut out = String::new();
        out.append("BitcoinTransaction:\n");
        out.append("  Version: ");
        push_decimal(&mut out, self.version as u64);
        out.append("\n");
        out.append("  Lock Time: ");
        push_decimal(&mut out, self.lock_time as u64);
        out.append("\n");
        out.append("  Inputs:\n");
        let ghost head = out@;
        let mut i: usize = 0;
        assert(out@ =~= head + inputs_report(self@.inputs.take(0)));
        while i < self.inputs.len()
            invariant
                i <= self.inputs.len(),
                out@ == head + inputs_report(self@.inputs.take(i as int)),
            decreases self.inputs.len() - i,
        {
            push_input_report(&mut out, i + 1, &self.inputs[i]);
            proof {
                let done = self@.inputs.take(i + 1);
                assert(done.drop_last() =~= self@.inputs.take(i as int));
                assert(done.last() == self.inputs[i as int]@);
                assert(out@ =~= head + inputs_report(done));
            }
            i += 1;
        }
        assert(self@.inputs.take(i as int) =~= self@.inputs);
        assert(out@ =~= transaction_report(self@));
        out
    }
}

} // verus!
