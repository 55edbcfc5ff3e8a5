use vstd::prelude::*;

verus! {

/// The three paths a run works on: genes, reads and the output file.
pub struct Arguments {
    pub genes: String,
    pub reads: String,
    pub output: String,
}

/// Reads the three positional arguments, in the order genes, reads, output;
/// `None` unless there are exactly three.
pub fn parse(args: Vec<String>) -> (r: Option<Arguments>)
    ensures
        r is Some <==> args@.len() == 3,
        r matches Some(a) ==> a.genes@ == args@[0]@ && a.reads@ == args@[1]@ && a.output@ == args@[2]@,
{
    if args.len() != 3 {
        return None;
    }
    let mut args = args;
    let output = args.pop().unwrap();
    let reads = args.pop().unwrap();
    let genes = args.pop().unwrap();
    Some(Arguments { genes, reads, output })
}

} // verus!
