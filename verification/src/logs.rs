use vstd::prelude::*;

verus! {

/// Anything a system wants shown in the log view renders itself to a line.
pub trait Logable {
    fn to_string(&self) -> String;
}

/// Named log lines, at most one per name: adding under an existing name
/// replaces that line.
pub struct LogManager {
    logs: Vec<(String, String)>,
}

impl LogManager {
    /// The log entries as (name, line) pairs, in insertion order.
    pub closed spec fn entries(self) -> Seq<(Seq<char>, Seq<char>)> {
        self.logs@.map_values(|p: (String, String)| (p.0@, p.1@))
    }

    /// Whether a line is stored under this name.
    pub open spec fn has_log(self, name: Seq<char>) -> bool {
        exists|i: int| 0 <= i < self.entries().len() && (#[trigger] self.entries()[i]).0 == name
    }

    /// Names are unique.
    pub open spec fn wf(self) -> bool {
        forall|i: int, j: int|
            0 <= i < j < self.entries().len() ==> (#[trigger] self.entries()[i]).0 != (
            #[trigger] self.entries()[j]).0
    }

    /// An empty log.
    pub fn new() -> (m: LogManager)
        ensures
            m.wf(),
            m.entries() == Seq::<(Seq<char>, Seq<char>)>::empty(),
    {
        let m = LogManager { logs: Vec::new() };
        proof {
            assert(m.entries() =~= Seq::<(Seq<char>, Seq<char>)>::empty());
        }
        m
    }

    /// Store the object's rendering under `log_name`, replacing any line of
    /// the same name. What the line says is the object's business; the log
    /// only promises that no other entry moves and names stay unique.
    pub fn add_log<L: Logable>(&mut self, log_name: String, log_obj: &L)
        requires
            old(self).wf(),
        ensures
            final(self).wf(),
            final(self).has_log(log_name@),
            final(self).entries().len() >= old(self).entries().len(),
            forall|j: int|
                0 <= j < old(self).entries().len() && old(self).entries()[j].0 != log_name@
                    ==> final(self).entries()[j] == #[trigger] old(self).entries()[j],
            (old(self).has_log(log_name@) ==> final(self).entries().len() == old(
                self,
            ).entries().len()),
            (!old(self).has_log(log_name@) ==> final(self).entries().len() == old(
                self,
            ).entries().len() + 1),
    {
        let line = log_obj.to_string();
        let mut i: usize = 0;
        let n = self.logs.len();
        while i < n
            invariant
                *self == *old(self),
                old(self).wf(),
                n == self.logs@.len(),
                i <= n,
                forall|j: int| 0 <= j < i ==> (#[trigger] self.logs@[j]).0@ != log_name@,
        decreases n - i,
        {
            if self.logs[i].0 == log_name {
                let pair = self.logs.remove(i);
                self.logs.insert(i, (pair.0, line));
                proof {
                    assert forall|k: int|
                        0 <= k < old(self).entries().len() implies #[trigger] old(
                        self,
                    ).entries()[k] == (old(self).logs@[k].0@, old(self).logs@[k].1@) by {}
                    assert(old(self).has_log(log_name@)) by {
                        assert(old(self).entries()[i as int].0 == log_name@);
                    }
                    assert(self.logs@ =~= old(self).logs@.update(
                        i as int,
                        (old(self).logs@[i as int].0, self.logs@[i as int].1),
                    ));
                    assert forall|k: int|
                        0 <= k < old(self).entries().len() implies #[trigger] self.entries()[k]
                        == (self.logs@[k].0@, self.logs@[k].1@) by {}
                    assert(self.entries()[i as int].0 == log_name@);
                    assert forall|p: int, q: int|
                        0 <= p < q < self.entries().len() implies (#[trigger] self.entries()[p]).0
                        != (#[trigger] self.entries()[q]).0 by {
                        assert(self.entries()[p].0 == self.logs@[p].0@);
                        assert(self.entries()[q].0 == self.logs@[q].0@);
                        assert(old(self).entries()[p].0 == old(self).logs@[p].0@);
                        assert(old(self).entries()[q].0 == old(self).logs@[q].0@);
                        assert(self.logs@[p].0 == old(self).logs@[p].0);
                        assert(self.logs@[q].0 == old(self).logs@[q].0);
                        assert(old(self).entries().len() == old(self).logs@.len());
                        assert(self.entries().len() == self.logs@.len());
                        assert(old(self).entries()[p].0 != old(self).entries()[q].0);
                    }
                }
                return ;
            }
            i += 1;
        }
        let ghost pre = *self;
        self.logs.push((log_name, line));
        proof {
            assert forall|k: int| 0 <= k < self.entries().len() implies #[trigger] self.entries()[k]
                == (self.logs@[k].0@, self.logs@[k].1@) by {}
            let last = self.entries().len() - 1;
            assert(self.entries()[last].0 == log_name@);
            assert forall|k: int| 0 <= k < pre.entries().len() implies #[trigger] self.entries()[k]
                == pre.entries()[k] by {
                assert(self.logs@[k] == pre.logs@[k]);
                assert(pre.entries()[k] == (pre.logs@[k].0@, pre.logs@[k].1@));
            }
            assert forall|p: int, q: int|
                0 <= p < q < self.entries().len() implies (#[trigger] self.entries()[p]).0 != (
            #[trigger] self.entries()[q]).0 by {
                if q < pre.entries().len() {
                    assert(pre.entries()[p].0 != pre.entries()[q].0);
                } else {
                    assert(self.entries()[q].0 == log_name@);
                    assert(pre.logs@[p].0@ != log_name@);
                    assert(self.entries()[p].0 == pre.logs@[p].0@);
                }
            }
        }
    }

    /// The stored lines, for the log view to draw.
    pub fn get_logs(&self) -> (r: &Vec<(String, String)>)
        ensures
            r@.map_values(|p: (String, String)| (p.0@, p.1@)) == self.entries(),
    {
        &self.logs
    }
}

} // verus!
