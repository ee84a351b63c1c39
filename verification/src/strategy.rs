//! The strategy's command line, as it is forwarded to the running strategy.
use vstd::prelude::*;

use crate::text::{join_with, joined, views};

verus! {

/// Configuration of the strategy; it has no settings yet.
#[derive(Clone, Copy, Debug, PartialEq, Eq, Structural)]
pub struct StrategyConfig {}

impl Default for StrategyConfig {
    fn default() -> (c: StrategyConfig)
        ensures
            c == (StrategyConfig {}),
    {
        StrategyConfig {}
    }
}

/// `prefix` put before each of `items`.
pub open spec fn prefixed(prefix: Seq<char>, items: Seq<Seq<char>>) -> Seq<Seq<char>> {
    items.map_values(|p: Seq<char>| prefix + p)
}

/// The words of a `submit` command line: `--testnet` where asked for, `submit`,
/// the size and the asset, then each opening protocol behind `-a` and each
/// closing one behind `-f`.
pub open spec fn submit_parts(
    size_text: Seq<char>,
    asset: Seq<char>,
    opening: Seq<Seq<char>>,
    closing: Seq<Seq<char>>,
    testnet: bool,
) -> Seq<Seq<char>> {
    (if testnet { seq!["--testnet"@] } else { Seq::empty() }) + seq!["submit"@, "-s "@ + size_text, "-c "@ + asset]
        + prefixed("-a "@, opening) + prefixed("-f "@, closing)
}

/// The words of a `submit` command line, read off its inputs: `--testnet`
/// first where asked for, then `submit`, the size and the asset, then one word
/// per opening protocol, in order, each behind `-a `, then one per closing
/// protocol, in order, each behind `-f `; nothing else.
pub proof fn submit_words_follow_the_inputs(
    size_text: Seq<char>,
    asset: Seq<char>,
    opening: Seq<Seq<char>>,
    closing: Seq<Seq<char>>,
    testnet: bool,
)
    ensures
        ({
            let w = submit_parts(size_text, asset, opening, closing, testnet);
            let h: int = if testnet { 4 } else { 3 };
            &&& w.len() == h + opening.len() + closing.len()
            &&& testnet ==> w[0] == "--testnet"@
            &&& w[h - 3] == "submit"@
            &&& w[h - 2] == "-s "@ + size_text
            &&& w[h - 1] == "-c "@ + asset
            &&& forall|i: int| 0 <= i < opening.len() ==> #[trigger] w[h + i] == "-a "@ + opening[i]
            &&& forall|j: int| 0 <= j < closing.len() ==> #[trigger] w[h + opening.len() + j] == "-f "@ + closing[j]
        }),
{
    let w = submit_parts(size_text, asset, opening, closing, testnet);
    let h: int = if testnet { 4 } else { 3 };
    let head = (if testnet { seq!["--testnet"@] } else { Seq::<Seq<char>>::empty() }) + seq![
        "submit"@,
        "-s "@ + size_text,
        "-c "@ + asset,
    ];
    let a = prefixed("-a "@, opening);
    let f = prefixed("-f "@, closing);
    assert(w == head + a + f);
    assert(head.len() == h);
    assert forall|i: int| 0 <= i < opening.len() implies #[trigger] w[h + i] == "-a "@ + opening[i] by {
        assert(w[h + i] == a[i]);
    }
    assert forall|j: int| 0 <= j < closing.len() implies #[trigger] w[h + opening.len() + j] == "-f "@ + closing[j] by {
        assert(w[h + opening.len() + j] == f[j]);
    }
}

fn push_prefixed(parts: &mut Vec<String>, prefix: &str, items: &Vec<String>)
    ensures
        views(final(parts)@) == views(old(parts)@) + prefixed(prefix@, views(items@)),
{
    let ghost start = views(parts@);
    let mut i: usize = 0;
    while i < items.len()
        invariant
            i <= items@.len(),
            views(parts@) == start + prefixed(prefix@, views(items@).take(i as int)),
        decreases items@.len() - i,
    {
        let mut p = String::from_str(prefix);
        p.append(items[i].as_str());
        let ghost before = parts@;
        parts.push(p);
        assert(views(parts@) =~= views(before).push(prefix@ + items@[i as int]@));
        assert(prefixed(prefix@, views(items@).take(i as int + 1)) =~= prefixed(prefix@, views(items@).take(i as int)).push(
            prefix@ + items@[i as int]@,
        ));
        i = i + 1;
    }
    assert(views(items@).take(items@.len() as int) =~= views(items@));
}

/// The command line that forwards a `submit` to the running strategy: the
/// words of `submit_parts` joined by spaces. `size_text` is the size as it is displayed.
pub fn build_cli_string(size_text: &str, asset: &str, opening: &Vec<String>, closing: &Vec<String>, testnet: bool) -> (s: String)
    ensures
        s@ == joined(submit_parts(size_text@, asset@, views(opening@), views(closing@), testnet), " "@),
{
    let mut parts: Vec<String> = Vec::new();
    if testnet {
        parts.push(String::from_str("--testnet"));
    }
    parts.push(String::from_str("submit"));
    let mut size = String::from_str("-s ");
    size.append(size_text);
    parts.push(size);
    let mut coin = String::from_str("-c ");
    coin.append(asset);
    parts.push(coin);
    let ghost head = views(parts@);
    assert(head =~= (if testnet { seq!["--testnet"@] } else { Seq::<Seq<char>>::empty() }) + seq![
        "submit"@,
        "-s "@ + size_text@,
        "-c "@ + asset@,
    ]);
    push_prefixed(&mut parts, "-a ", opening);
    push_prefixed(&mut parts, "-f ", closing);
    assert(views(parts@) =~= submit_parts(size_text@, asset@, views(opening@), views(closing@), testnet));
    join_with(&parts, " ")
}

} // verus!
