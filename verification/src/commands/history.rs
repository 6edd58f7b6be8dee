//! Events that happened on this day in history.
use vstd::prelude::*;

verus! {

broadcast use vstd::string::group_string_axioms;

/// One event: its year and its description in English and Chinese.
#[derive(Debug)]
pub struct HistoryEvent {
    pub year: String,
    pub en: String,
    pub cn: String,
}

/// The address of the events of the day `date` (month/day).
pub fn history_url(date: &str) -> (r: String)
    ensures
        r@ == "https://ss.blueforge.org/getHistory?date="@ + date@,
{
    let mut url = "https://ss.blueforge.org/getHistory?date=".to_string();
    url.append(date);
    url
}

/// The events among the items the service sent, in order: an item whose
/// year, English or Chinese text is missing (or not text) is left out.
pub open spec fn complete_items(items: Seq<(Option<String>, Option<String>, Option<String>)>) -> Seq<(String, String, String)>
    decreases items.len(),
{
    if items.len() == 0 {
        Seq::empty()
    } else {
        let prev = complete_items(items.drop_last());
        match items.last() {
            (Some(y), Some(e), Some(c)) => prev.push((y, e, c)),
            _ => prev,
        }
    }
}

/// The fields of an event.
pub open spec fn event_fields(e: HistoryEvent) -> (String, String, String) {
    (e.year, e.en, e.cn)
}

/// The events among the items the service sent (see `complete_items`).
pub fn history_events(items: Vec<(Option<String>, Option<String>, Option<String>)>) -> (r: Vec<HistoryEvent>)
    ensures
        r@.map_values(|e: HistoryEvent| event_fields(e)) == complete_items(items@),
{
    let mut out: Vec<HistoryEvent> = Vec::new();
    let n = items.len();
    let mut i: usize = 0;
    while i < n
        invariant
            n == items@.len(),
            i <= n,
            out@.map_values(|e: HistoryEvent| event_fields(e)) == complete_items(items@.take(i as int)),
        decreases n - i,
    {
        proof {
            assert(items@.take(i + 1).drop_last() =~= items@.take(i as int));
            assert(items@.take(i + 1).last() == items@[i as int]);
        }
        let ghost before = out@;
        match &items[i] {
            (Some(y), Some(e), Some(c)) => {
                out.push(HistoryEvent { year: y.clone(), en: e.clone(), cn: c.clone() });
                proof {
                    assert(out@.map_values(|e: HistoryEvent| event_fields(e)) =~= before.map_values(
                        |e: HistoryEvent| event_fields(e),
                    ).push((*y, *e, *c)));
                }
            },
            _ => {},
        }
        i += 1;
    }
    proof {
        assert(items@.take(n as int) =~= items@);
    }
    out
}

} // verus!
