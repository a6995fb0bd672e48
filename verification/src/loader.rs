use vstd::prelude::*;

verus! {

/// Where the next zero byte at or after `start` lies in `blob` (its length if
/// there is none).
pub open spec fn next_nul(blob: Seq<u8>, start: int) -> int
    decreases blob.len() - start,
{
    if start >= blob.len() {
        blob.len() as int
    } else if blob[start] == 0 {
        start
    } else {
        next_nul(blob, start + 1)
    }
}

proof fn lemma_next_nul_ge(blob: Seq<u8>, start: int)
    requires
        0 <= start,
    ensures
        start <= next_nul(blob, start) || start >= blob.len(),
        next_nul(blob, start) <= blob.len() || start >= blob.len(),
    decreases blob.len() - start,
{
    if start < blob.len() && blob[start] != 0 {
        lemma_next_nul_ge(blob, start + 1);
    }
}

/// `blob` holds `n` zero-terminated names from `start` on.
pub open spec fn holds_names(blob: Seq<u8>, start: int, n: nat) -> bool
    decreases n,
{
    if n == 0 {
        true
    } else {
        0 <= start && next_nul(blob, start) < blob.len() && holds_names(blob, next_nul(blob, start) + 1, (n - 1) as nat)
    }
}

/// The `n` zero-terminated names of `blob` from `start` on, without their
/// terminators.
pub open spec fn names_in(blob: Seq<u8>, start: int, n: nat) -> Seq<Seq<u8>>
    decreases n,
{
    if n == 0 || start < 0 {
        Seq::empty()
    } else {
        let end = next_nul(blob, start);
        seq![blob.subrange(start, end)] + names_in(blob, end + 1, (n - 1) as nat)
    }
}

/// The applications linked into the kernel image: where each one's image
/// starts (with one more entry for the end of the last) and its name.
pub struct AppTable {
    app_start: Vec<usize>,
    names: Vec<Vec<u8>>,
}

impl AppTable {
    pub closed spec fn starts(&self) -> Seq<usize> {
        self.app_start@
    }

    /// The names, in order.
    pub closed spec fn names(&self) -> Seq<Seq<u8>> {
        self.names@.map_values(|v: Vec<u8>| v@)
    }

    pub open spec fn num_app(&self) -> nat {
        self.names().len()
    }

    /// One start per application and one for the end, in increasing order.
    pub open spec fn wf(&self) -> bool {
        &&& self.starts().len() == self.num_app() + 1
        &&& forall|i: int| 0 <= i < self.num_app() ==> #[trigger] self.starts()[i] <= self.starts()[i + 1]
    }

    /// The table of `app_start.len() - 1` applications whose images start at
    /// `app_start` and whose names follow one another, each ended by a zero
    /// byte, in `names_blob`.
    pub fn new(app_start: Vec<usize>, names_blob: &Vec<u8>) -> (r: AppTable)
        requires
            app_start@.len() >= 1,
            forall|i: int| 0 <= i < app_start@.len() - 1 ==> #[trigger] app_start@[i] <= app_start@[i + 1],
            holds_names(names_blob@, 0, (app_start@.len() - 1) as nat),
        ensures
            r.wf(),
            r.starts() == app_start@,
            r.names() == names_in(names_blob@, 0, (app_start@.len() - 1) as nat),
            terminated(r.names()).len() <= names_blob@.len(),
            names_blob@.subrange(0, terminated(r.names()).len() as int) == terminated(r.names()),
    {
        proof { lemma_names_fill_blob(names_blob@, 0, (app_start@.len() - 1) as nat); }
        let num_app = app_start.len() - 1;
        let blen = names_blob.len();
        let ghost blob = names_blob@;
        let mut v: Vec<Vec<u8>> = Vec::new();
        let mut start: usize = 0;
        let mut k: usize = 0;
        while k < num_app
            invariant
                num_app == app_start@.len() - 1,
                blob == names_blob@,
                blen == blob.len(),
                0 <= k <= num_app,
                start <= blob.len(),
                holds_names(blob, start as int, (num_app - k) as nat),
                v@.map_values(|x: Vec<u8>| x@) + names_in(blob, start as int, (num_app - k) as nat)
                    == names_in(blob, 0, num_app as nat),
                v@.len() == k,
            decreases num_app - k,
        {
            proof {
                lemma_next_nul_ge(blob, start as int);
            }
            let mut end = start;
            while names_blob[end] != 0
                invariant
                    blob == names_blob@,
                    blen == blob.len(),
                    start <= end,
                    next_nul(blob, start as int) < blob.len(),
                    end <= next_nul(blob, start as int),
                    next_nul(blob, end as int) == next_nul(blob, start as int),
                decreases next_nul(blob, start as int) - end,
            {
                proof {
                    assert(end < blob.len());
                    assert(blob[end as int] != 0);
                    assert(next_nul(blob, end as int) == next_nul(blob, end as int + 1));
                    lemma_next_nul_ge(blob, end as int + 1);
                }
                end = end + 1;
            }
            let mut name: Vec<u8> = Vec::new();
            let mut j = start;
            while j < end
                invariant
                    blob == names_blob@,
                    start <= j <= end,
                    end < blob.len(),
                    name@ == blob.subrange(start as int, j as int),
                decreases end - j,
            {
                name.push(names_blob[j]);
                j = j + 1;
            }
            proof {
                let rest = names_in(blob, start as int, (num_app - k) as nat);
                assert(rest == seq![blob.subrange(start as int, end as int)] + names_in(blob, end + 1, (num_app - k - 1) as nat));
                assert(v@.push(name).map_values(|x: Vec<u8>| x@) =~= v@.map_values(|x: Vec<u8>| x@).push(name@));
                assert(v@.map_values(|x: Vec<u8>| x@).push(name@) + names_in(blob, end + 1, (num_app - k - 1) as nat)
                    =~= v@.map_values(|x: Vec<u8>| x@) + rest);
            }
            v.push(name);
            start = end + 1;
            k = k + 1;
        }
        proof {
            assert(names_in(blob, start as int, 0) =~= Seq::<Seq<u8>>::empty());
            assert(v@.map_values(|x: Vec<u8>| x@) + Seq::<Seq<u8>>::empty() =~= v@.map_values(|x: Vec<u8>| x@));
        }
        let r = AppTable { app_start, names: v };
        proof {
            assert forall|i: int| 0 <= i < r.num_app() implies #[trigger] r.starts()[i] <= r.starts()[i + 1] by {}
        }
        r
    }

    /// Number of applications.
    pub fn get_num_app(&self) -> (r: usize)
        requires
            self.wf(),
        ensures
            r == self.num_app(),
    {
        self.names.len()
    }

    /// The image of application `app_id`: where it starts and how long it is.
    pub fn get_app_data(&self, app_id: usize) -> (r: (usize, usize))
        requires
            self.wf(),
            app_id < self.num_app(),
        ensures
            r.0 == self.starts()[app_id as int],
            r.1 == self.starts()[app_id as int + 1] - self.starts()[app_id as int],
    {
        let starts = self.app_start.len();
        assert(app_id + 1 < starts);
        let a = self.app_start[app_id];
        let b = self.app_start[app_id + 1];
        proof {
            assert(self.starts()[app_id as int] <= self.starts()[app_id as int + 1]);
            assert(a == self.starts()[app_id as int]);
            assert(b == self.starts()[app_id as int + 1]);
        }
        (a, b - a)
    }

    /// The name of application `i`.
    pub fn name(&self, i: usize) -> (r: &Vec<u8>)
        requires
            i < self.num_app(),
        ensures
            r@ == self.names()[i as int],
    {
        &self.names[i]
    }
}

/// Whether two byte strings are equal.
pub fn bytes_eq(a: &Vec<u8>, b: &Vec<u8>) -> (r: bool)
    ensures
        r == (a@ == b@),
{
    if a.len() != b.len() {
        return false;
    }
    let mut i: usize = 0;
    while i < a.len()
        invariant
            a@.len() == b@.len(),
            0 <= i <= a@.len(),
            forall|j: int| 0 <= j < i ==> a@[j] == b@[j],
        decreases a@.len() - i,
    {
        if a[i] != b[i] {
            return false;
        }
        i = i + 1;
    }
    proof {
        assert(a@ =~= b@);
    }
    true
}

/// The image of the first application named `name`, or `None` when there
/// is none.
pub fn get_app_data_by_name(apps: &AppTable, name: &Vec<u8>) -> (r: Option<(usize, usize)>)
    requires
        apps.wf(),
    ensures
        match r {
            Some((start, len)) => exists|i: int| {
                &&& 0 <= i < apps.num_app()
                &&& #[trigger] apps.names()[i] == name@
                &&& forall|j: int| 0 <= j < i ==> apps.names()[j] != name@
                &&& start == apps.starts()[i]
                &&& len == apps.starts()[i + 1] - apps.starts()[i]
            },
            None => forall|i: int| 0 <= i < apps.num_app() ==> #[trigger] apps.names()[i] != name@,
        },
{
    let num_app = apps.get_num_app();
    let mut i: usize = 0;
    while i < num_app
        invariant
            apps.wf(),
            num_app == apps.num_app(),
            0 <= i <= num_app,
            forall|j: int| 0 <= j < i ==> apps.names()[j] != name@,
        decreases num_app - i,
    {
        if bytes_eq(apps.name(i), name) {
            return Some(apps.get_app_data(i));
        }
        i = i + 1;
    }
    None
}

/// The name of the program the initial process runs: `winit`.
pub open spec fn initproc_name() -> Seq<u8> {
    seq![119u8, 105u8, 110u8, 105u8, 116u8]
}

/// The image the initial process is built from: that of the first
/// application named `winit`, or `None` when there is none (the kernel then
/// cannot start).
pub fn initproc_app_data(apps: &AppTable) -> (r: Option<(usize, usize)>)
    requires
        apps.wf(),
    ensures
        match r {
            Some((start, len)) => exists|i: int| {
                &&& 0 <= i < apps.num_app()
                &&& #[trigger] apps.names()[i] == initproc_name()
                &&& forall|j: int| 0 <= j < i ==> apps.names()[j] != initproc_name()
                &&& start == apps.starts()[i]
                &&& len == apps.starts()[i + 1] - apps.starts()[i]
            },
            None => forall|i: int| 0 <= i < apps.num_app() ==> #[trigger] apps.names()[i] != initproc_name(),
        },
{
    let name: Vec<u8> = vec![119u8, 105u8, 110u8, 105u8, 116u8];
    assert(name@ == initproc_name());
    get_app_data_by_name(apps, &name)
}

/// Each name followed by its zero terminator, one after the other.
pub open spec fn terminated(names: Seq<Seq<u8>>) -> Seq<u8>
    decreases names.len(),
{
    if names.len() == 0 {
        Seq::empty()
    } else {
        names[0] + seq![0u8] + terminated(names.drop_first())
    }
}

proof fn lemma_next_nul_props(blob: Seq<u8>, start: int)
    requires
        0 <= start,
    ensures
        forall|k: int| start <= k < next_nul(blob, start) ==> #[trigger] blob[k] != 0,
        next_nul(blob, start) < blob.len() ==> blob[next_nul(blob, start)] == 0,
    decreases blob.len() - start,
{
    if start < blob.len() && blob[start] != 0 {
        lemma_next_nul_props(blob, start + 1);
    }
}

/// The names read from a blob are the whole texts between its terminators:
/// there are `n` of them, none holds a zero byte, and written out again, each
/// followed by its terminator, they give back the blob from `start` on.
pub proof fn lemma_names_fill_blob(blob: Seq<u8>, start: int, n: nat)
    requires
        0 <= start <= blob.len(),
        holds_names(blob, start, n),
    ensures
        names_in(blob, start, n).len() == n,
        start + terminated(names_in(blob, start, n)).len() <= blob.len(),
        blob.subrange(start, start + terminated(names_in(blob, start, n)).len()) == terminated(names_in(blob, start, n)),
        forall|i: int, j: int| 0 <= i < n && 0 <= j < names_in(blob, start, n)[i].len()
            ==> #[trigger] names_in(blob, start, n)[i][j] != 0,
    decreases n,
{
    if n > 0 {
        let end = next_nul(blob, start);
        let names = names_in(blob, start, n);
        let rest = names_in(blob, end + 1, (n - 1) as nat);
        lemma_next_nul_ge(blob, start);
        lemma_next_nul_props(blob, start);
        lemma_names_fill_blob(blob, end + 1, (n - 1) as nat);
        assert(names == seq![blob.subrange(start, end)] + rest);
        assert(names.drop_first() =~= rest);
        let t = terminated(names);
        let tr = terminated(rest);
        assert(t == blob.subrange(start, end) + seq![0u8] + tr);
        assert(blob.subrange(start, start + t.len()) =~= t) by {
            assert forall|k: int| 0 <= k < t.len() implies #[trigger] blob.subrange(start, start + t.len())[k] == t[k] by {
                if k < end - start {
                } else if k == end - start {
                } else {
                    assert(t[k] == tr[k - (end - start) - 1]);
                    assert(blob.subrange(end + 1, end + 1 + tr.len())[k - (end - start) - 1] == tr[k - (end - start) - 1]);
                }
            }
        }
        assert forall|i: int, j: int| 0 <= i < n && 0 <= j < names[i].len() implies #[trigger] names[i][j] != 0 by {
            if i == 0 {
                assert(names[0][j] == blob[start + j]);
            } else {
                assert(names[i] == rest[i - 1]);
            }
        }
    }
}

} // verus!
