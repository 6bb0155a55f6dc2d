use mlp_sweep::logger::{LogCSV, LogConsole};
use mlp_sweep::sweep::{
    decimal_string, devices, header_labels, log_path, record_fields, run_points, sweep_plan, Device,
    DeviceSweep, RunMetrics, RunPoint, SweepConfig,
};
use mlp_sweep::topology::{plan, TopologyError};

fn metrics(tag: &str) -> RunMetrics {
    RunMetrics {
        training_loss: format!("{}0.5", tag),
        training_time: "1.25".to_string(),
        test_loss: "0.75".to_string(),
        test_accuracy: "91.5".to_string(),
        test_time: "0.125".to_string(),
    }
}

fn config(runs: i32, cpu: Vec<u32>, cuda: Vec<u32>, flags: Vec<bool>) -> SweepConfig {
    SweepConfig {
        runs,
        layers_cpu: cpu,
        layers_cuda: cuda,
        use_cuda: flags,
        log_dir: "logs".to_string(),
    }
}

const HEADER: &str = "hidden_layers,run,training_loss,training_time,test_loss,test_accuracy,test_time\n";

#[test]
fn plan_one_hidden_layer() {
    assert_eq!(plan(1, 784, 10, 4), Ok(vec![(784, 4), (4, 10)]));
    assert_eq!(plan(1, 3, 2, 7), Ok(vec![(3, 7), (7, 2)]));
}

#[test]
fn plan_two_hidden_layers() {
    assert_eq!(plan(2, 784, 10, 4), Ok(vec![(784, 4), (4, 8), (8, 4), (4, 10)]));
}

#[test]
fn plan_three_hidden_layers_has_plateau() {
    assert_eq!(plan(3, 784, 10, 4), Ok(vec![(784, 4), (4, 8), (8, 8), (8, 4), (4, 10)]));
}

#[test]
fn plan_four_hidden_layers() {
    assert_eq!(
        plan(4, 20, 3, 2),
        Ok(vec![(20, 2), (2, 4), (4, 8), (8, 4), (4, 2), (2, 3)])
    );
}

#[test]
fn plan_is_mirrored_and_chained() {
    for h in 2..12i64 {
        let t = plan(h, 5, 6, 3).unwrap();
        assert_eq!(t.len() as i64, h + 2);
        for i in 0..(t.len() - 1) {
            assert_eq!(t[i].1, t[i + 1].0);
        }
        let hidden = &t[1..t.len() - 1];
        for i in 0..hidden.len() {
            let j = hidden.len() - 1 - i;
            assert_eq!(hidden[i].0, hidden[j].1);
            assert_eq!(hidden[i].1, hidden[j].0);
        }
    }
}

#[test]
fn plan_rejects_non_positive_depth() {
    assert_eq!(plan(0, 784, 10, 4), Err(TopologyError::InvalidTopology));
    assert_eq!(plan(-1, 784, 10, 4), Err(TopologyError::InvalidTopology));
    assert_eq!(plan(i64::MIN, 784, 10, 4), Err(TopologyError::InvalidTopology));
}

#[test]
fn plan_rejects_widths_that_overflow() {
    assert_eq!(plan(200, 784, 10, 1), Err(TopologyError::WidthOverflow));
    assert_eq!(plan(2, 784, 10, i64::MAX), Err(TopologyError::WidthOverflow));
    let deepest = plan(125, 1, 1, 1).unwrap();
    assert_eq!(deepest.len(), 127);
    assert_eq!(deepest[63], (1i64 << 62, 1i64 << 62));
    assert_eq!(plan(126, 1, 1, 1), Err(TopologyError::WidthOverflow));
}

#[test]
fn console_line_pairs_labels_and_values() {
    let console = LogConsole::new(vec!["a", "b"]);
    let line = console.log(vec!["1".to_string(), "2".to_string()]);
    assert!(!line.mismatch);
    assert_eq!(line.text, "a: 1 || b: 2");
}

#[test]
fn console_line_truncates_on_mismatch() {
    let console = LogConsole::new(vec!["a", "b", "c"]);
    let line = console.log(vec!["1".to_string(), "2".to_string()]);
    assert!(line.mismatch);
    assert_eq!(line.text, "a: 1 || b: 2");
    let line = console.log(vec!["x".to_string(), "y".to_string(), "z".to_string(), "w".to_string()]);
    assert!(line.mismatch);
    assert_eq!(line.text, "a: x || b: y || c: z");
    let empty = console.log(vec![]);
    assert!(empty.mismatch);
    assert_eq!(empty.text, "");
}

#[test]
fn csv_log_writes_header_then_rows() {
    let mut log = LogCSV::new("out.csv".to_string(), vec!["a", "b"]);
    assert_eq!(log.path_str(), "out.csv");
    assert_eq!(log.take_pending(), b"a,b\n".to_vec());
    assert_eq!(log.take_pending(), Vec::<u8>::new());
    log.log(vec!["1".to_string(), "x,y".to_string()]);
    log.log(vec!["2".to_string(), "q\"r".to_string()]);
    assert_eq!(log.take_pending(), b"1,\"x,y\"\n2,\"q\"\"r\"\n".to_vec());
}

#[test]
fn decimal_notation() {
    assert_eq!(decimal_string(0), "0");
    assert_eq!(decimal_string(7), "7");
    assert_eq!(decimal_string(10), "10");
    assert_eq!(decimal_string(1234), "1234");
    assert_eq!(decimal_string(u64::MAX), u64::MAX.to_string());
}

#[test]
fn log_paths_per_device() {
    assert_eq!(log_path(&"logs".to_string(), Device::Cpu), "logs/rust_log_cpu.csv");
    assert_eq!(log_path(&"/tmp/x".to_string(), Device::Cuda), "/tmp/x/rust_log_cuda.csv");
}

#[test]
fn devices_follow_flags() {
    assert_eq!(devices(&vec![false, true]), vec![Device::Cpu, Device::Cuda]);
    assert_eq!(devices(&vec![true]), vec![Device::Cuda]);
    assert_eq!(devices(&vec![]), Vec::<Device>::new());
    assert_eq!(Device::from_flag(false).name(), "cpu");
}

#[test]
fn record_fields_in_header_order() {
    let p = RunPoint { device: Device::Cpu, hidden_layers: 12, run: 3 };
    let fields = record_fields(p, &metrics(""));
    assert_eq!(fields, vec!["12", "3", "0.5", "1.25", "0.75", "91.5", "0.125"]);
    assert_eq!(header_labels().len(), fields.len());
}

#[test]
fn single_run_scenario() {
    let c = config(1, vec![2], vec![], vec![false]);
    let mut s = DeviceSweep::new(&c, Device::Cpu);
    assert_eq!(s.log_path_str(), "logs/rust_log_cpu.csv");
    assert_eq!(s.take_pending(), HEADER.as_bytes().to_vec());
    let p = s.current().unwrap();
    assert_eq!(p, RunPoint { device: Device::Cpu, hidden_layers: 2, run: 0 });
    assert_eq!(plan(p.hidden_layers as i64, 784, 10, 4), Ok(vec![(784, 4), (4, 8), (8, 4), (4, 10)]));
    let line = s.record(metrics(""));
    assert!(!line.mismatch);
    assert_eq!(
        line.text,
        "hidden_layers: 2 || run: 0 || training_loss: 0.5 || training_time: 1.25 || test_loss: 0.75 || test_accuracy: 91.5 || test_time: 0.125"
    );
    assert!(s.is_done());
    assert_eq!(s.current(), None);
    assert_eq!(s.take_pending(), b"2,0,0.5,1.25,0.75,91.5,0.125\n".to_vec());
}

#[test]
fn sweep_covers_every_grid_point_once() {
    let c = config(3, vec![1, 2], vec![5], vec![false, true]);
    let mut seen: Vec<RunPoint> = Vec::new();
    let mut lines = 0;
    for d in devices(&c.use_cuda) {
        let mut s = DeviceSweep::new(&c, d);
        let mut rows = String::from_utf8(s.take_pending()).unwrap();
        while let Some(p) = s.current() {
            assert!(!seen.contains(&p));
            seen.push(p);
            s.record(metrics(""));
            lines += 1;
            rows.push_str(&String::from_utf8(s.take_pending()).unwrap());
        }
        let rows: Vec<&str> = rows.lines().collect();
        assert_eq!(rows[0], HEADER.trim_end());
        let per_device = if d == Device::Cpu { 2 * 3 } else { 3 };
        assert_eq!(rows.len(), 1 + per_device);
    }
    assert_eq!(seen.len(), 2 * 3 + 3);
    assert_eq!(lines, seen.len());
    assert_eq!(seen[0], RunPoint { device: Device::Cpu, hidden_layers: 1, run: 0 });
    assert_eq!(seen[3], RunPoint { device: Device::Cpu, hidden_layers: 2, run: 0 });
    assert_eq!(seen[8], RunPoint { device: Device::Cuda, hidden_layers: 5, run: 2 });
}

#[test]
fn sinks_receive_the_same_records_in_order() {
    let c = config(2, vec![1, 3], vec![], vec![false]);
    let mut s = DeviceSweep::new(&c, Device::Cpu);
    s.take_pending();
    let mut console: Vec<String> = Vec::new();
    let mut durable = String::new();
    let mut n = 0;
    while s.current().is_some() {
        let line = s.record(metrics(&n.to_string()));
        console.push(line.text);
        durable.push_str(&String::from_utf8(s.take_pending()).unwrap());
        n += 1;
    }
    let rows: Vec<&str> = durable.lines().collect();
    assert_eq!(rows.len(), console.len());
    for (row, line) in rows.iter().zip(console.iter()) {
        let values: Vec<&str> = row.split(',').collect();
        let shown: Vec<&str> = line.split(" || ").map(|pair| pair.split(": ").nth(1).unwrap()).collect();
        assert_eq!(values, shown);
    }
}

#[test]
fn no_runs_when_repetitions_not_positive() {
    let c = config(0, vec![1, 2], vec![], vec![false]);
    let mut s = DeviceSweep::new(&c, Device::Cpu);
    assert!(s.is_done());
    assert_eq!(s.current(), None);
    assert_eq!(s.take_pending(), HEADER.as_bytes().to_vec());
    let c = config(-2, vec![1], vec![], vec![false]);
    assert!(DeviceSweep::new(&c, Device::Cpu).is_done());
}

#[test]
fn csv_log_quotes_empty_records_and_line_breaks() {
    let mut log = LogCSV::new("e.csv".to_string(), vec![]);
    assert_eq!(log.take_pending(), b"\"\"\n".to_vec());
    log.log(vec!["".to_string()]);
    log.log(vec!["".to_string(), "".to_string()]);
    log.log(vec!["a\nb".to_string(), "c\rd".to_string(), "é".to_string()]);
    assert_eq!(log.take_pending(), "\"\"\n,\n\"a\nb\",\"c\rd\",é\n".as_bytes().to_vec());
}

#[test]
fn sweep_plan_lists_runs_in_nested_order() {
    let c = config(2, vec![3, 1], vec![4], vec![true, false]);
    let all = sweep_plan(&c);
    let expected: Vec<RunPoint> = vec![
        RunPoint { device: Device::Cuda, hidden_layers: 4, run: 0 },
        RunPoint { device: Device::Cuda, hidden_layers: 4, run: 1 },
        RunPoint { device: Device::Cpu, hidden_layers: 3, run: 0 },
        RunPoint { device: Device::Cpu, hidden_layers: 3, run: 1 },
        RunPoint { device: Device::Cpu, hidden_layers: 1, run: 0 },
        RunPoint { device: Device::Cpu, hidden_layers: 1, run: 1 },
    ];
    assert_eq!(all, expected);
    let mut per_device = run_points(&c, Device::Cuda);
    per_device.extend(run_points(&c, Device::Cpu));
    assert_eq!(per_device, expected);
    assert_eq!(sweep_plan(&config(3, vec![1], vec![2], vec![])), Vec::<RunPoint>::new());
}
