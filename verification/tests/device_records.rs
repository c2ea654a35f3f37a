use sysutil::cpu::{
    addGovernors, clockSource, frequencyReadings, modelName, raised, threadCount, timeSpent,
    TimeSpent,
};
use sysutil::gpu::vramSize;
use sysutil::motherboard::{biosInfo, motherboardInfo};
use sysutil::sensors::{batteryInfo, getBacklight, Battery, BatteryStatus};
use sysutil::storage::{mountOf, mountsOf, tableSize, ByteSize};

#[test]
fn bios_fields_are_trimmed() {
    let bios = biosInfo(" American Megatrends \n", "5.17", "\tF.42", "03/15/2023\n");
    assert_eq!(bios.vendor, "American Megatrends");
    assert_eq!(bios.release, "5.17");
    assert_eq!(bios.version, "F.42");
    assert_eq!(bios.date, "03/15/2023");
    let empty = biosInfo("", "  ", "\n", "\u{3000}x\u{a0}");
    assert_eq!(empty.vendor, "");
    assert_eq!(empty.release, "");
    assert_eq!(empty.version, "");
    assert_eq!(empty.date, "x");
}

#[test]
fn motherboard_fields_are_trimmed() {
    let bios = biosInfo("v", "r", "n", "d");
    let board = motherboardInfo(" B550 AORUS \n", "Gigabyte ", " x.x", bios);
    assert_eq!(board.name, "B550 AORUS");
    assert_eq!(board.vendor, "Gigabyte");
    assert_eq!(board.version, "x.x");
    assert_eq!(board.bios.vendor, "v");
    assert_eq!(board.bios.date, "d");
}

#[test]
fn clock_sources_are_split_at_spaces() {
    let sources = clockSource("tsc", "tsc hpet acpi_pm");
    assert_eq!(sources.current, "tsc");
    assert_eq!(sources.available, vec!["tsc", "hpet", "acpi_pm"]);
    let none = clockSource("", "");
    assert_eq!(none.current, "");
    assert_eq!(none.available, vec![""]);
    let gaps = clockSource("hpet", "tsc  hpet ");
    assert_eq!(gaps.available, vec!["tsc", "", "hpet", ""]);
}

#[test]
fn battery_states() {
    assert_eq!(
        batteryInfo("87", "Charging"),
        Some(Battery { capacity: 87, status: BatteryStatus::Charging })
    );
    assert_eq!(
        batteryInfo("100", "Full"),
        Some(Battery { capacity: 100, status: BatteryStatus::Full })
    );
    assert_eq!(
        batteryInfo("5", "Discharging"),
        Some(Battery { capacity: 5, status: BatteryStatus::Discharging })
    );
    assert_eq!(batteryInfo("87", "Not charging"), None);
    assert_eq!(batteryInfo("87", "charging"), None);
    assert_eq!(batteryInfo("", "Charging"), None);
    assert_eq!(batteryInfo("87", ""), None);
}

#[test]
fn battery_capacity_that_is_no_number() {
    assert_eq!(batteryInfo("many", "Full").unwrap().capacity, 0);
    assert_eq!(batteryInfo("256", "Full").unwrap().capacity, 0);
    assert_eq!(batteryInfo("255", "Full").unwrap().capacity, 255);
    assert_eq!(batteryInfo("+7", "Full").unwrap().capacity, 7);
    assert_eq!(batteryInfo("-7", "Full").unwrap().capacity, 0);
    assert_eq!(batteryInfo("7 ", "Full").unwrap().capacity, 0);
}

#[test]
fn new_battery() {
    let battery = Battery::new(42, BatteryStatus::Discharging);
    assert_eq!(battery.capacity, 42);
    assert_eq!(battery.status, BatteryStatus::Discharging);
}

#[test]
fn backlight_levels() {
    let light = getBacklight("120\n", " 255 ").unwrap();
    assert_eq!(light.brightness, 120);
    assert_eq!(light.maxBrightness, 255);
    assert_eq!(getBacklight("4294967295", "0").unwrap().brightness, u32::MAX);
    assert!(getBacklight("4294967296", "0").is_none());
    assert!(getBacklight("12", "").is_none());
    assert!(getBacklight("x", "3").is_none());
    assert!(getBacklight("1 2", "3").is_none());
}

#[test]
fn vram_size_in_bytes() {
    assert_eq!(vramSize("17163091968").unwrap().B(), 17163091968);
    assert_eq!(vramSize("0").unwrap().B(), 0);
    assert_eq!(vramSize("8").unwrap().b(), 64);
    assert!(vramSize("").is_none());
    assert!(vramSize("12 GB").is_none());
    assert!(vramSize("-1").is_none());
    assert!(vramSize("99999999999999999999999999").is_none());
}

#[test]
fn storage_size_in_bytes() {
    assert_eq!(ByteSize::new(4096).b(), 4096);
    assert_eq!(ByteSize::new(0).b(), 0);
}

const CPUINFO: &str = "processor\t: 0\nvendor_id\t: AuthenticAMD\nmodel name\t: AMD Ryzen 7 : 5800X \ncpu MHz\t\t: 3400.000\n\nprocessor\t: 1\nmodel name\t: other\ncpu MHz\t\t: 2200.000";

#[test]
fn model_name_of_the_processor() {
    assert_eq!(modelName(CPUINFO), "5800X");
    assert_eq!(modelName("model name\t: Intel(R) Core(TM) i7"), "Intel(R) Core(TM) i7");
    assert_eq!(modelName("model name"), "model name");
    assert_eq!(modelName("cpu MHz: 1"), "");
    assert_eq!(modelName(""), "");
}

#[test]
fn threads_of_the_processor() {
    assert_eq!(threadCount(CPUINFO), 2);
    assert_eq!(threadCount(""), 0);
    assert_eq!(threadCount("processorprocessor processo processor"), 3);
}

#[test]
fn highest_number_read() {
    assert_eq!(raised(3, "7"), 7);
    assert_eq!(raised(7, "3"), 7);
    assert_eq!(raised(7, "7"), 7);
    assert_eq!(raised(7, ""), 7);
    assert_eq!(raised(7, "9 "), 7);
    assert_eq!(raised(0, "18446744073709551615"), usize::MAX);
    assert_eq!(raised(0, "18446744073709551616"), 0);
}

#[test]
fn governors_are_listed_once() {
    let mut governors = Vec::<String>::new();
    addGovernors(&mut governors, "performance powersave");
    assert_eq!(governors, vec!["performance", "powersave"]);
    addGovernors(&mut governors, "powersave schedutil powersave");
    assert_eq!(governors, vec!["performance", "powersave", "schedutil"]);
    addGovernors(&mut governors, "");
    assert_eq!(governors, vec!["performance", "powersave", "schedutil", ""]);
    addGovernors(&mut governors, " ");
    assert_eq!(governors.len(), 4);
}

#[test]
fn sizes_of_the_partition_table() {
    let table = "major minor  #blocks  name\n\n 259        0  976762584 nvme0n1\n 259        1     524288 nvme0n1p1";
    assert_eq!(tableSize(table, "nvme0n1"), Some(976762584));
    assert_eq!(tableSize(table, "nvme0n1p1"), Some(524288));
    assert_eq!(tableSize(table, "sda"), Some(0));
    assert_eq!(tableSize(table, "name"), None);
    assert_eq!(tableSize("sda", "sda"), None);
    assert_eq!(tableSize("", "sda"), Some(0));
    assert_eq!(tableSize("7 sda", "sda"), Some(7));
}

#[test]
fn mounts_of_the_mount_table() {
    let table = "/dev/sda1 /boot vfat rw 0 0\n/dev/sda2 / ext4 rw 0 0\n/dev/sda2 /again btrfs rw 0 0";
    assert_eq!(mountOf(table, "/dev/sda2 "), Some(("/".to_string(), "ext4".to_string())));
    assert_eq!(mountOf(table, "/dev/sda1 "), Some(("/boot".to_string(), "vfat".to_string())));
    assert_eq!(mountOf(table, "/dev/sdb1 "), Some((String::new(), String::new())));
    assert_eq!(mountOf("/dev/sdb1 /mnt", "/dev/sdb1 "), None);
    assert_eq!(mountOf("/dev/sdb1  x", "/dev/sdb1 "), Some((String::new(), "x".to_string())));
}

#[test]
fn mounts_of_a_device() {
    let table = "/dev/nvme0n1p1 /boot vfat rw 0 0\nproc /proc proc rw 0 0\n/dev/nvme0n1p2 / ext4 rw 0 0\n/dev/sda1 /mnt ext4 rw";
    let mounts = mountsOf(table, "nvme0n1").unwrap();
    assert_eq!(mounts.len(), 2);
    assert_eq!(mounts[0].device, "/dev/nvme0n1p1");
    assert_eq!(mounts[0].name, "nvme0n1p1");
    assert_eq!(mounts[0].mountPoint, "/boot");
    assert_eq!(mounts[0].fileSystem, "vfat");
    assert_eq!(mounts[1].name, "nvme0n1p2");
    assert_eq!(mounts[1].mountPoint, "/");
    assert!(mountsOf(table, "sdb").unwrap().is_empty());
    assert!(mountsOf("", "sdb").unwrap().is_empty());
    assert!(mountsOf("/dev/sdb1 /mnt", "sdb").is_none());
    assert!(mountsOf("sdb1 /mnt ext4", "sdb").is_none());
    assert!(mountsOf("/dev/sda1 /mnt ext4\n/dev/sdb1 /mnt", "sdb").is_none());
    assert_eq!(mountsOf("/dev/sda1 /mnt ext4\n/dev/sdb1 /mnt", "sda").unwrap().len(), 1);
}

#[test]
fn time_spent_between_two_readings() {
    let before = vec![10, 20, 30, 40, 50, 60, 70, 5];
    let after = vec![11, 22, 33, 44, 55, 66, 77, 5, 100];
    assert_eq!(
        timeSpent(&before, &after),
        Some(TimeSpent {
            total: 128,
            user: 1,
            nice: 2,
            system: 3,
            idle: 4,
            iowait: 5,
            interrupt: 6,
            softInterrupt: 7,
        })
    );
    assert_eq!(timeSpent(&before, &before).unwrap().total, 0);
    assert_eq!(timeSpent(&after, &before), None);
    assert_eq!(timeSpent(&vec![1, 2, 3, 4, 5, 6], &after), None);
    assert_eq!(timeSpent(&before, &vec![11, 22, 33, 44, 55, 66]), None);
    assert_eq!(timeSpent(&vec![0, 0, 0, 0, 0, 0, 1, 0], &vec![0, 0, 0, 0, 0, 0, 0, 9]), None);
    assert_eq!(timeSpent(&vec![0, 0, 0, 0, 0, 0, 0, 9], &vec![1, 0, 0, 0, 0, 0, 0, 0]), None);
    let high = vec![usize::MAX, 1, 0, 0, 0, 0, 0];
    assert_eq!(timeSpent(&before, &high), None);
    assert_eq!(timeSpent(&high, &high), None);
}

#[test]
fn frequency_readings_of_the_processor_table() {
    let readings = frequencyReadings(CPUINFO);
    assert_eq!(readings.len(), 2);
    assert_eq!(readings[0].processorID, "0");
    assert_eq!(readings[0].mhz, vec!["3400.000"]);
    assert_eq!(readings[1].processorID, "1");
    assert_eq!(readings[1].mhz, vec!["2200.000"]);
    assert!(frequencyReadings("").is_empty());
    let odd = frequencyReadings("cpu MHz : 1\n cpu MHz: 2 : 3 \nprocessor: a\nprocessor 7\n\n\n\nx");
    assert_eq!(odd.len(), 2);
    assert_eq!(odd[0].processorID, "processor 7");
    assert_eq!(odd[0].mhz, vec!["1", "3"]);
    assert_eq!(odd[1].processorID, "");
    assert!(odd[1].mhz.is_empty());
}
