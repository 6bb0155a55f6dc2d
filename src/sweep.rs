//! The sweep over devices, hidden-layer counts and repetitions: which runs
//! are made, in which order, and the records they leave in both sinks.

use crate::logger::{
    csv_record, str_texts, texts, ConsoleLine, LogCSV, LogConsole, render,
};
use vstd::prelude::*;
use vstd::string::*;

verus! {

/// The compute target of a run.
#[derive(Debug, Clone, Copy, PartialEq, Eq, Structural)]
pub enum Device {
    Cpu,
    Cuda,
}

/// The device that a flag of the configuration selects.
pub open spec fn device_of(cuda: bool) -> Device {
    if cuda {
        Device::Cuda
    } else {
        Device::Cpu
    }
}

/// The name of a device, as it stands in log file names.
pub open spec fn device_name(d: Device) -> Seq<char> {
    match d {
        Device::Cpu => "cpu"@,
        Device::Cuda => "cuda"@,
    }
}

impl Device {
    /// The device that a flag of the configuration selects.
    pub fn from_flag(cuda: bool) -> (r: Device)
        ensures
            r == device_of(cuda),
    {
        if cuda {
            Device::Cuda
        } else {
            Device::Cpu
        }
    }

    pub fn name(&self) -> (r: &'static str)
        ensures
            r@ == device_name(*self),
    {
        match self {
            Device::Cpu => "cpu",
            Device::Cuda => "cuda",
        }
    }
}

/// The part of the experiment configuration that shapes the sweep.
pub struct SweepConfig {
    /// Repetitions of each grid point; none when not positive.
    pub runs: i32,
    pub layers_cpu: Vec<u32>,
    pub layers_cuda: Vec<u32>,
    /// One flag per device to sweep, in order: `false` for the CPU,
    /// `true` for the accelerator.
    pub use_cuda: Vec<bool>,
    pub log_dir: String,
}

/// The number of repetitions of each grid point.
pub open spec fn reps(runs: i32) -> nat {
    if runs > 0 {
        runs as nat
    } else {
        0
    }
}

/// The hidden-layer counts swept on a device.
pub open spec fn layers_for(c: &SweepConfig, d: Device) -> Seq<u32> {
    match d {
        Device::Cpu => c.layers_cpu@,
        Device::Cuda => c.layers_cuda@,
    }
}

/// One grid point: a device, a hidden-layer count and a repetition index.
#[derive(Debug, Clone, Copy, PartialEq, Eq, Structural)]
pub struct RunPoint {
    pub device: Device,
    pub hidden_layers: u32,
    pub run: i32,
}

/// The repetitions of one hidden-layer count on a device.
pub open spec fn layer_points(d: Device, l: u32, r: nat) -> Seq<RunPoint> {
    Seq::new(r, |k: int| RunPoint { device: d, hidden_layers: l, run: k as i32 })
}

/// The runs on one device: each layer count in order, each repeated `r` times.
pub open spec fn device_points(d: Device, layers: Seq<u32>, r: nat) -> Seq<RunPoint>
    decreases layers.len(),
{
    if layers.len() == 0 {
        seq![]
    } else {
        device_points(d, layers.drop_last(), r) + layer_points(d, layers.last(), r)
    }
}

/// The runs of a whole sweep, device after device in the order of the flags.
pub open spec fn sweep_points(c: &SweepConfig, flags: Seq<bool>) -> Seq<RunPoint>
    decreases flags.len(),
{
    if flags.len() == 0 {
        seq![]
    } else {
        let d = device_of(flags.last());
        sweep_points(c, flags.drop_last()) + device_points(d, layers_for(c, d), reps(c.runs))
    }
}

/// The number of runs of a sweep: the sum over the flags of the layer
/// counts of their device times the repetitions.
pub open spec fn sweep_size(c: &SweepConfig, flags: Seq<bool>) -> nat
    decreases flags.len(),
{
    if flags.len() == 0 {
        0
    } else {
        sweep_size(c, flags.drop_last()) + layers_for(c, device_of(flags.last())).len() * reps(
            c.runs,
        )
    }
}

/// The devices that a sweep visits, in order.
pub fn devices(use_cuda: &Vec<bool>) -> (r: Vec<Device>)
    ensures
        r@ == use_cuda@.map_values(|f: bool| device_of(f)),
{
    let mut r: Vec<Device> = Vec::new();
    let mut i: usize = 0;
    while i < use_cuda.len()
        invariant
            0 <= i <= use_cuda@.len(),
            r@ =~= use_cuda@.subrange(0, i as int).map_values(|f: bool| device_of(f)),
        decreases use_cuda@.len() - i,
    {
        r.push(Device::from_flag(use_cuda[i]));
        i = i + 1;
    }
    assert(use_cuda@.subrange(0, i as int) =~= use_cuda@);
    r
}

/// The path of a device's log: `{log_dir}/rust_log_{device}.csv`.
pub open spec fn log_path_text(log_dir: Seq<char>, d: Device) -> Seq<char> {
    log_dir + "/rust_log_"@ + device_name(d) + ".csv"@
}

pub fn log_path(log_dir: &String, device: Device) -> (r: String)
    ensures
        r@ == log_path_text(log_dir@, device),
{
    let mut p = log_dir.clone();
    p.append("/rust_log_");
    p.append(device.name());
    p.append(".csv");
    p
}

/// The decimal digits.
pub open spec fn digits() -> Seq<char> {
    seq!['0', '1', '2', '3', '4', '5', '6', '7', '8', '9']
}

/// The decimal notation of `n`, without leading zeros.
pub open spec fn decimal(n: nat) -> Seq<char>
    decreases n,
{
    if n < 10 {
        seq![digits()[n as int]]
    } else {
        decimal(n / 10) + seq![digits()[(n % 10) as int]]
    }
}

/// The decimal notation of `n`.
pub fn decimal_string(n: u64) -> (r: String)
    ensures
        r@ == decimal(n as nat),
    decreases n,
{
    let all = "0123456789";
    proof {
        reveal_strlit("0123456789");
    }
    assert(all@ =~= digits());
    let d = (n % 10) as usize;
    let digit = all.substring_char(d, d + 1);
    assert(digit@ =~= seq![digits()[d as int]]);
    if n < 10 {
        digit.to_owned()
    } else {
        let mut r = decimal_string(n / 10);
        r.append(digit);
        r
    }
}

/// What a run measured, rendered as text by whoever measured it.
pub struct RunMetrics {
    pub training_loss: String,
    pub training_time: String,
    pub test_loss: String,
    pub test_accuracy: String,
    pub test_time: String,
}

/// The column names of every log.
pub open spec fn header_text() -> Seq<Seq<char>> {
    seq![
        "hidden_layers"@,
        "run"@,
        "training_loss"@,
        "training_time"@,
        "test_loss"@,
        "test_accuracy"@,
        "test_time"@,
    ]
}

/// The column names of every log, in order.
pub fn header_labels() -> (r: Vec<&'static str>)
    ensures
        str_texts(r@) == header_text(),
{
    let r = vec![
        "hidden_layers",
        "run",
        "training_loss",
        "training_time",
        "test_loss",
        "test_accuracy",
        "test_time",
    ];
    assert(str_texts(r@) =~= header_text());
    r
}

/// The fields of the record of a run at point `p` that measured `m`.
pub open spec fn record_text(p: RunPoint, m: &RunMetrics) -> Seq<Seq<char>> {
    seq![
        decimal(p.hidden_layers as nat),
        decimal(p.run as nat),
        m.training_loss@,
        m.training_time@,
        m.test_loss@,
        m.test_accuracy@,
        m.test_time@,
    ]
}

/// The fields of the record of a run, in the order of the header.
pub fn record_fields(p: RunPoint, m: &RunMetrics) -> (r: Vec<String>)
    requires
        p.run >= 0,
    ensures
        texts(r@) == record_text(p, m),
{
    let r = vec![
        decimal_string(p.hidden_layers as u64),
        decimal_string(p.run as u64),
        m.training_loss.clone(),
        m.training_time.clone(),
        m.test_loss.clone(),
        m.test_accuracy.clone(),
        m.test_time.clone(),
    ];
    assert(texts(r@) =~= record_text(p, m));
    r
}

/// The runs of `device`: each of its layer counts in order, each repeated
/// as often as the configuration asks.
pub fn run_points(config: &SweepConfig, device: Device) -> (r: Vec<RunPoint>)
    ensures
        r@ == device_points(device, layers_for(config, device), reps(config.runs)),
        forall|i: int| 0 <= i < r@.len() ==> (#[trigger] r@[i]).run >= 0,
{
    let layers = match device {
        Device::Cpu => &config.layers_cpu,
        Device::Cuda => &config.layers_cuda,
    };
    let runs: i32 = if config.runs > 0 {
        config.runs
    } else {
        0
    };
    let ghost r = reps(config.runs);
    let mut points: Vec<RunPoint> = Vec::new();
    let mut li: usize = 0;
    while li < layers.len()
        invariant
            0 <= li <= layers@.len(),
            layers@ == layers_for(config, device),
            runs as nat == r,
            runs >= 0,
            points@ == device_points(device, layers@.subrange(0, li as int), r),
            forall|i: int| 0 <= i < points@.len() ==> (#[trigger] points@[i]).run >= 0,
        decreases layers@.len() - li,
    {
        let l = layers[li];
        let ghost before = points@;
        let mut k: i32 = 0;
        while k < runs
            invariant
                0 <= k <= runs,
                runs >= 0,
                points@ == before + layer_points(device, l, k as nat),
                forall|i: int| 0 <= i < points@.len() ==> (#[trigger] points@[i]).run >= 0,
            decreases runs - k,
        {
            points.push(RunPoint { device, hidden_layers: l, run: k });
            assert(layer_points(device, l, (k + 1) as nat) =~= layer_points(
                device,
                l,
                k as nat,
            ).push(RunPoint { device, hidden_layers: l, run: k }));
            k = k + 1;
        }
        let ghost next = layers@.subrange(0, li + 1);
        assert(next.drop_last() =~= layers@.subrange(0, li as int));
        li = li + 1;
    }
    assert(layers@.subrange(0, li as int) =~= layers@);
    points
}

/// Every run of the sweep, device after device in the order of the flags.
pub fn sweep_plan(config: &SweepConfig) -> (r: Vec<RunPoint>)
    ensures
        r@ == sweep_points(config, config.use_cuda@),
{
    let mut all: Vec<RunPoint> = Vec::new();
    let mut i: usize = 0;
    while i < config.use_cuda.len()
        invariant
            0 <= i <= config.use_cuda@.len(),
            all@ == sweep_points(config, config.use_cuda@.subrange(0, i as int)),
        decreases config.use_cuda@.len() - i,
    {
        let mut points = run_points(config, Device::from_flag(config.use_cuda[i]));
        all.append(&mut points);
        let ghost next = config.use_cuda@.subrange(0, i + 1);
        assert(next.drop_last() =~= config.use_cuda@.subrange(0, i as int));
        i = i + 1;
    }
    assert(config.use_cuda@.subrange(0, i as int) =~= config.use_cuda@);
    all
}

/// The sweep on one device: its runs in order, and the two sinks, console
/// and durable log, that receive one record for each run that completes.
pub struct DeviceSweep {
    device: Device,
    points: Vec<RunPoint>,
    next: usize,
    console: LogConsole<'static>,
    csv: LogCSV,
    records: Ghost<Seq<Seq<Seq<char>>>>,
}

impl DeviceSweep {
    pub closed spec fn device(&self) -> Device {
        self.device
    }

    /// The runs of this device, in order.
    pub closed spec fn points(&self) -> Seq<RunPoint> {
        self.points@
    }

    /// How many runs have been recorded.
    pub closed spec fn done_count(&self) -> nat {
        self.next as nat
    }

    /// The records that the console sink received, in order.
    pub closed spec fn console_records(&self) -> Seq<Seq<Seq<char>>> {
        self.records@
    }

    /// The rows of the durable log, header first.
    pub closed spec fn log_rows(&self) -> Seq<Seq<Seq<char>>> {
        self.csv.rows()
    }

    /// Where the durable log is stored.
    pub closed spec fn log_path(&self) -> Seq<char> {
        self.csv.path()
    }

    /// The bytes of the durable log already taken for storage.
    pub closed spec fn log_taken(&self) -> Seq<u8> {
        self.csv.taken()
    }

    /// The bytes of the durable log that wait for storage.
    pub closed spec fn log_pending(&self) -> Seq<u8> {
        self.csv.pending()
    }

    pub closed spec fn wf(&self) -> bool {
        &&& self.csv.wf()
        &&& self.console.labels() == header_text()
        &&& self.next <= self.points@.len()
        &&& self.records@.len() == self.next
        &&& self.csv.rows() == seq![header_text()] + self.records@
        &&& forall|i: int| 0 <= i < self.points@.len() ==> (#[trigger] self.points@[i]).run >= 0
        &&& forall|i: int|
            0 <= i < self.next ==> {
                &&& (#[trigger] self.records@[i]).len() == 7
                &&& self.records@[i][0] == decimal(self.points@[i].hidden_layers as nat)
                &&& self.records@[i][1] == decimal(self.points@[i].run as nat)
            }
    }

    /// Opens the sinks of `device` and lays out its runs. The log's pending
    /// bytes are its header line.
    pub fn new(config: &SweepConfig, device: Device) -> (r: DeviceSweep)
        ensures
            r.wf(),
            r.device() == device,
            r.points() == device_points(device, layers_for(config, device), reps(config.runs)),
            r.done_count() == 0,
            r.console_records() == Seq::<Seq<Seq<char>>>::empty(),
            r.log_path() == log_path_text(config.log_dir@, device),
            r.log_rows() == seq![header_text()],
            r.log_taken() == Seq::<u8>::empty(),
            r.log_pending() == csv_record(header_text()),
    {
        let points = run_points(config, device);
        let path = log_path(&config.log_dir, device);
        let csv = LogCSV::new(path, header_labels());
        let console = LogConsole::new(header_labels());
        assert(seq![header_text()] + Seq::<Seq<Seq<char>>>::empty() =~= seq![header_text()]);
        DeviceSweep { device, points, next: 0, console, csv, records: Ghost(Seq::empty()) }
    }

    /// The next run to make, if any is left.
    pub fn current(&self) -> (r: Option<RunPoint>)
        requires
            self.wf(),
        ensures
            self.done_count() < self.points().len() ==> r == Some(
                self.points()[self.done_count() as int],
            ),
            self.done_count() >= self.points().len() ==> r is None,
    {
        if self.next < self.points.len() {
            Some(self.points[self.next])
        } else {
            None
        }
    }

    /// Whether every run of the device has been recorded.
    pub fn is_done(&self) -> (r: bool)
        requires
            self.wf(),
        ensures
            r == (self.done_count() == self.points().len()),
    {
        self.next == self.points.len()
    }

    /// Records what the current run measured: the same record goes to the
    /// durable log and to the console, whose line is returned.
    pub fn record(&mut self, m: RunMetrics) -> (line: ConsoleLine)
        requires
            old(self).wf(),
            old(self).done_count() < old(self).points().len(),
        ensures
            final(self).wf(),
            final(self).device() == old(self).device(),
            final(self).points() == old(self).points(),
            final(self).log_path() == old(self).log_path(),
            final(self).log_taken() == old(self).log_taken(),
            final(self).done_count() == old(self).done_count() + 1,
            final(self).console_records() == old(self).console_records().push(
                record_text(old(self).points()[old(self).done_count() as int], &m),
            ),
            final(self).log_rows() == old(self).log_rows().push(
                record_text(old(self).points()[old(self).done_count() as int], &m),
            ),
            final(self).log_pending() == old(self).log_pending() + csv_record(
                record_text(old(self).points()[old(self).done_count() as int], &m),
            ),
            !line.mismatch,
            line.text@ == render(
                header_text(),
                record_text(old(self).points()[old(self).done_count() as int], &m),
                7,
            ),
    {
        let p = self.points[self.next];
        let ghost rec = record_text(p, &m);
        let fields = record_fields(p, &m);
        let copy = fields.clone();
        assert(copy@ =~= fields@);
        self.csv.log(copy);
        assert(texts(fields@).len() == fields@.len());
        let line = self.console.log(fields);
        self.records = Ghost(self.records@.push(rec));
        let total = self.points.len();
        assert(self.next + 1 <= total);
        self.next = self.next + 1;
        assert(self.csv.rows() =~= seq![header_text()] + self.records@);
        line
    }

    /// Hands out the bytes of the durable log that wait for storage.
    pub fn take_pending(&mut self) -> (r: Vec<u8>)
        requires
            old(self).wf(),
        ensures
            final(self).wf(),
            r@ == old(self).log_pending(),
            final(self).log_pending() == Seq::<u8>::empty(),
            final(self).log_taken() == old(self).log_taken() + r@,
            final(self).device() == old(self).device(),
            final(self).points() == old(self).points(),
            final(self).done_count() == old(self).done_count(),
            final(self).console_records() == old(self).console_records(),
            final(self).log_rows() == old(self).log_rows(),
            final(self).log_path() == old(self).log_path(),
    {
        self.csv.take_pending()
    }

    /// Where the durable log is stored.
    pub fn log_path_str(&self) -> (r: &str)
        ensures
            r@ == self.log_path(),
    {
        self.csv.path_str()
    }
}

proof fn lemma_concat_distinct(a: Seq<RunPoint>, b: Seq<RunPoint>)
    requires
        a.no_duplicates(),
        b.no_duplicates(),
        forall|i: int, j: int| 0 <= i < a.len() && 0 <= j < b.len() ==> a[i] != b[j],
    ensures
        (a + b).no_duplicates(),
{
    let s = a + b;
    assert forall|i: int, j: int| 0 <= i < s.len() && 0 <= j < s.len() && i != j implies s[i]
        != s[j] by {
        if i < a.len() && j >= a.len() {
            assert(s[j] == b[j - a.len()]);
        } else if j < a.len() && i >= a.len() {
            assert(s[i] == b[i - a.len()]);
        }
    }
}

proof fn lemma_device_points_facts(d: Device, layers: Seq<u32>, r: nat)
    requires
        r <= i32::MAX,
    ensures
        device_points(d, layers, r).len() == layers.len() * r,
        forall|i: int|
            0 <= i < device_points(d, layers, r).len() ==> {
                let p = #[trigger] device_points(d, layers, r)[i];
                &&& p.device == d
                &&& layers.contains(p.hidden_layers)
                &&& 0 <= p.run < r
            },
    decreases layers.len(),
{
    if layers.len() > 0 {
        let rest = layers.drop_last();
        lemma_device_points_facts(d, rest, r);
        let n = layers.len();
        assert((n - 1) * r + r == n * r) by (nonlinear_arith);
        let a = device_points(d, rest, r);
        let s = device_points(d, layers, r);
        assert forall|i: int| 0 <= i < s.len() implies {
            let p = #[trigger] s[i];
            &&& p.device == d
            &&& layers.contains(p.hidden_layers)
            &&& 0 <= p.run < r
        } by {
            if i < a.len() {
                assert(s[i] == a[i]);
                let k = choose|k: int| 0 <= k < rest.len() && rest[k] == a[i].hidden_layers;
                assert(layers[k] == rest[k]);
            } else {
                assert(layers[n - 1] == layers.last());
            }
        }
    }
}

/// With no hidden-layer count listed twice, the runs of one device are
/// pairwise distinct: a layer count and a repetition index identify a run.
pub proof fn law_device_points_distinct(d: Device, layers: Seq<u32>, r: nat)
    requires
        layers.no_duplicates(),
        r <= i32::MAX,
    ensures
        device_points(d, layers, r).no_duplicates(),
    decreases layers.len(),
{
    if layers.len() > 0 {
        let rest = layers.drop_last();
        assert(rest.no_duplicates());
        law_device_points_distinct(d, rest, r);
        lemma_device_points_facts(d, rest, r);
        let a = device_points(d, rest, r);
        let b = layer_points(d, layers.last(), r);
        assert forall|i: int, j: int| 0 <= i < a.len() && 0 <= j < b.len() implies a[i]
            != b[j] by {
            let k = choose|k: int| 0 <= k < rest.len() && rest[k] == a[i].hidden_layers;
            assert(layers[k] == rest[k]);
            assert(layers[layers.len() - 1] == layers.last());
        }
        lemma_concat_distinct(a, b);
    }
}

/// A sweep makes, over its device flags, the sum of each device's layer
/// counts times the repetitions runs.
pub proof fn law_sweep_size(c: &SweepConfig, flags: Seq<bool>)
    ensures
        sweep_points(c, flags).len() == sweep_size(c, flags),
    decreases flags.len(),
{
    if flags.len() > 0 {
        law_sweep_size(c, flags.drop_last());
        let d = device_of(flags.last());
        lemma_device_points_facts(d, layers_for(c, d), reps(c.runs));
    }
}

proof fn lemma_sweep_devices(c: &SweepConfig, flags: Seq<bool>)
    ensures
        forall|i: int|
            0 <= i < sweep_points(c, flags).len() ==> flags.map_values(|f: bool| device_of(f)).contains(
                (#[trigger] sweep_points(c, flags)[i]).device,
            ),
    decreases flags.len(),
{
    if flags.len() > 0 {
        let rest = flags.drop_last();
        lemma_sweep_devices(c, rest);
        let d = device_of(flags.last());
        lemma_device_points_facts(d, layers_for(c, d), reps(c.runs));
        let a = sweep_points(c, rest);
        let s = sweep_points(c, flags);
        let devs = flags.map_values(|f: bool| device_of(f));
        assert forall|i: int| 0 <= i < s.len() implies devs.contains((#[trigger] s[i]).device) by {
            if i < a.len() {
                assert(s[i] == a[i]);
                let rd = rest.map_values(|f: bool| device_of(f));
                let k = choose|k: int| 0 <= k < rd.len() && rd[k] == a[i].device;
                assert(devs[k] == rd[k]);
            } else {
                assert(devs[flags.len() - 1] == d);
            }
        }
    }
}

/// With no device flag and no hidden-layer count listed twice, the runs of
/// a sweep are pairwise distinct: device, layer count and repetition index
/// identify a run.
pub proof fn law_sweep_points_distinct(c: &SweepConfig, flags: Seq<bool>)
    requires
        flags.no_duplicates(),
        c.layers_cpu@.no_duplicates(),
        c.layers_cuda@.no_duplicates(),
    ensures
        sweep_points(c, flags).no_duplicates(),
    decreases flags.len(),
{
    if flags.len() > 0 {
        let rest = flags.drop_last();
        assert(rest.no_duplicates());
        law_sweep_points_distinct(c, rest);
        lemma_sweep_devices(c, rest);
        let d = device_of(flags.last());
        let r = reps(c.runs);
        law_device_points_distinct(d, layers_for(c, d), r);
        lemma_device_points_facts(d, layers_for(c, d), r);
        let a = sweep_points(c, rest);
        let b = device_points(d, layers_for(c, d), r);
        assert forall|i: int, j: int| 0 <= i < a.len() && 0 <= j < b.len() implies a[i]
            != b[j] by {
            let rd = rest.map_values(|f: bool| device_of(f));
            let k = choose|k: int| 0 <= k < rd.len() && rd[k] == a[i].device;
            assert(flags[k] == rest[k]);
            assert(flags[flags.len() - 1] == flags.last());
            assert(b[j].device == d);
        }
        lemma_concat_distinct(a, b);
    }
}

/// Run `i * r + k` of a device is the `i`-th layer count of its list,
/// repetition `k`: layer count first, then repetition.
pub proof fn law_device_points_order(d: Device, layers: Seq<u32>, r: nat, i: int, k: int)
    requires
        r <= i32::MAX,
        0 <= i < layers.len(),
        0 <= k < r,
    ensures
        i * r + k < device_points(d, layers, r).len(),
        device_points(d, layers, r)[i * r + k] == (RunPoint {
            device: d,
            hidden_layers: layers[i],
            run: k as i32,
        }),
    decreases layers.len(),
{
    let n = layers.len();
    let rest = layers.drop_last();
    lemma_device_points_facts(d, layers, r);
    lemma_device_points_facts(d, rest, r);
    let a = device_points(d, rest, r);
    let s = device_points(d, layers, r);
    assert(i * r + k < n * r) by (nonlinear_arith)
        requires
            0 <= i < n,
            0 <= k < r,
    ;
    if i == n - 1 {
        assert(s[i * r + k] == layer_points(d, layers.last(), r)[k]);
    } else {
        law_device_points_order(d, rest, r, i, k);
        assert(i * r + k < (n - 1) * r) by (nonlinear_arith)
            requires
                0 <= i < n - 1,
                0 <= k < r,
        ;
        assert(s[i * r + k] == a[i * r + k]);
    }
}

/// The durable log of a device sweep starts with the header; each later
/// row is the record that the console received at the same place, and
/// carries the layer count and repetition index of its run. Once every
/// run is recorded, each sink holds one record per layer count and
/// repetition of the device.
pub proof fn law_log_rows(s: &DeviceSweep, c: &SweepConfig)
    requires
        s.wf(),
        s.points() == device_points(s.device(), layers_for(c, s.device()), reps(c.runs)),
    ensures
        s.log_rows()[0] == header_text(),
        s.log_rows().len() == s.done_count() + 1,
        s.console_records().len() == s.done_count(),
        forall|j: int|
            0 <= j < s.done_count() ==> {
                &&& s.log_rows()[j + 1] == #[trigger] s.console_records()[j]
                &&& s.console_records()[j][0] == decimal(s.points()[j].hidden_layers as nat)
                &&& s.console_records()[j][1] == decimal(s.points()[j].run as nat)
            },
        s.done_count() == s.points().len() ==> {
            &&& s.log_rows().len() == layers_for(c, s.device()).len() * reps(c.runs) + 1
            &&& s.console_records().len() == layers_for(c, s.device()).len() * reps(c.runs)
        },
{
    lemma_device_points_facts(s.device(), layers_for(c, s.device()), reps(c.runs));
}

/// The console and the durable log receive the same records, in the same
/// order: the log's rows after the header are the console's records.
pub proof fn law_sinks_agree(s: &DeviceSweep)
    requires
        s.wf(),
    ensures
        s.log_rows().drop_first() == s.console_records(),
        s.console_records().len() == s.done_count(),
{
    assert(s.log_rows().drop_first() =~= s.console_records());
}

/// The runs of a sequence of device sweeps, one after another.
pub open spec fn swept_points(sweeps: Seq<DeviceSweep>) -> Seq<RunPoint>
    decreases sweeps.len(),
{
    if sweeps.len() == 0 {
        seq![]
    } else {
        swept_points(sweeps.drop_last()) + sweeps.last().points()
    }
}

/// The records that the console sinks of a sequence of device sweeps
/// received, one sweep after another.
pub open spec fn swept_records(sweeps: Seq<DeviceSweep>) -> Seq<Seq<Seq<char>>>
    decreases sweeps.len(),
{
    if sweeps.len() == 0 {
        seq![]
    } else {
        swept_records(sweeps.drop_last()) + sweeps.last().console_records()
    }
}

/// A finished sweep of each device that the flags select, in their order,
/// made exactly the runs of the whole sweep, and recorded one record per
/// run: the sum over the flags of layer counts times repetitions.
pub proof fn law_full_sweep(c: &SweepConfig, flags: Seq<bool>, sweeps: Seq<DeviceSweep>)
    requires
        sweeps.len() == flags.len(),
        forall|i: int|
            0 <= i < sweeps.len() ==> {
                &&& (#[trigger] sweeps[i]).wf()
                &&& sweeps[i].device() == device_of(flags[i])
                &&& sweeps[i].points() == device_points(
                    device_of(flags[i]),
                    layers_for(c, device_of(flags[i])),
                    reps(c.runs),
                )
                &&& sweeps[i].done_count() == sweeps[i].points().len()
            },
    ensures
        swept_points(sweeps) == sweep_points(c, flags),
        swept_records(sweeps).len() == sweep_size(c, flags),
    decreases flags.len(),
{
    if flags.len() > 0 {
        let n = flags.len();
        let rest = sweeps.drop_last();
        assert forall|i: int| 0 <= i < rest.len() implies {
            &&& (#[trigger] rest[i]).wf()
            &&& rest[i].device() == device_of(flags.drop_last()[i])
            &&& rest[i].points() == device_points(
                device_of(flags.drop_last()[i]),
                layers_for(c, device_of(flags.drop_last()[i])),
                reps(c.runs),
            )
            &&& rest[i].done_count() == rest[i].points().len()
        } by {
            assert(rest[i] == sweeps[i]);
            assert(flags.drop_last()[i] == flags[i]);
        }
        law_full_sweep(c, flags.drop_last(), rest);
        let last = sweeps[n - 1];
        assert(last.wf() && flags[n - 1] == flags.last());
        law_log_rows(&last, c);
        law_sweep_size(c, flags);
        law_sweep_size(c, flags.drop_last());
        lemma_device_points_facts(device_of(flags.last()), layers_for(c, device_of(flags.last())), reps(c.runs));
    }
}

} // verus!
