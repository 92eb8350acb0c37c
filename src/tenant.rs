use vstd::prelude::*;
use vstd::string::StringSliceAdditionalSpecFns;

verus! {

/// An identifier's bytes with every backtick doubled.
pub open spec fn escape_backticks(b: Seq<u8>) -> Seq<u8>
    decreases b.len(),
{
    if b.len() == 0 {
        Seq::empty()
    } else if b.last() == 96u8 {
        escape_backticks(b.drop_last()) + seq![96u8, 96u8]
    } else {
        escape_backticks(b.drop_last()).push(b.last())
    }
}

/// ``USE `name` ``, the identifier quoted so that no name can end the statement early.
pub open spec fn use_text(name: Seq<u8>) -> Seq<u8> {
    seq![85u8, 83u8, 69u8, 32u8, 96u8] + escape_backticks(name) + seq![96u8]
}

/// The statement that points the shared connection at a tenant's database.
pub fn use_statement(name: &str) -> (r: Vec<u8>)
    ensures
        r@ == use_text(name.spec_bytes()),
{
    let b = name.as_bytes();
    let mut out: Vec<u8> = Vec::new();
    out.push(85u8);
    out.push(83u8);
    out.push(69u8);
    out.push(32u8);
    out.push(96u8);
    let ghost head = out@;
    let mut i: usize = 0;
    while i < b.len()
        invariant
            i <= b@.len(),
            head == seq![85u8, 83u8, 69u8, 32u8, 96u8],
            out@ == head + escape_backticks(b@.subrange(0, i as int)),
        decreases b.len() - i,
    {
        proof {
            assert(b@.subrange(0, i + 1).drop_last() =~= b@.subrange(0, i as int));
        }
        if b[i] == 96u8 {
            out.push(96u8);
            out.push(96u8);
        } else {
            out.push(b[i]);
        }
        i = i + 1;
        proof {
            assert(out@ =~= head + escape_backticks(b@.subrange(0, i as int)));
        }
    }
    out.push(96u8);
    proof {
        assert(b@.subrange(0, b@.len() as int) =~= b@);
        assert(out@ =~= use_text(name.spec_bytes()));
    }
    out
}

} // verus!
