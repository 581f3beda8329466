use pemon::errors::ErrorKind;
use pemon::hdd::{recognize_temperature_line, get_nvme_hdd_temp};
use pemon::sensors::{get_rpm, get_sensor_info, get_temperature, read_count, update_sensor, Sensor};

const SENSORS: &str = "asus-isa-0000\n\
Adapter: ISA adapter\n\
CPU Fan:              1200 RPM\n\
Chassis Fan 1:         800 RPM\n\
Chassis Fan 2:           0 RPM\n\
CPU Temperature:       +45.0\u{b0}C  (high = +60.0\u{b0}C, crit = +95.0\u{b0}C)\n\
Motherboard Temperature:  +38.0\u{b0}C\n\
Chipset Temperature:  +52.5\u{b0}C\n\
\n";

const NVME: &str = "Smart Log for NVME device:nvme0n1 namespace-id:ffffffff\n\
critical_warning                    : 0\n\
temperature                         : 38 C\n\
available_spare                     : 100%\n";

fn zero() -> Sensor {
    Sensor { cpu_temp: 0, mb_temp: 0, chipset_temp: 0, cpu_fan_rpm: 0, chassis_fan_rpm: 0 }
}

#[test]
fn test_get_sensor() {
    let result = get_sensor_info(SENSORS.as_bytes()).unwrap();
    assert_eq!(result.cpu_temp > 0, true);
    println!(
        "Sensor: cpu temp: {}, mb temp: {}, chipset temp: {}, cpu fan: {} RPM, chassis fan: {} RPM",
        result.cpu_temp,
        result.mb_temp,
        result.chipset_temp,
        result.cpu_fan_rpm,
        result.chassis_fan_rpm
    );
}

#[test]
fn test_get_nvme_hdd_temp() {
    let result = get_nvme_hdd_temp(NVME.as_bytes()).unwrap();
    assert_eq!(result > 0, true);
    println!("Got HDD temperature: {}", result);
}

#[test]
fn sensor_report_values() {
    assert_eq!(
        get_sensor_info(SENSORS.as_bytes()),
        Ok(Sensor {
            cpu_temp: 45,
            mb_temp: 38,
            chipset_temp: 52,
            cpu_fan_rpm: 1200,
            chassis_fan_rpm: 800
        })
    );
}

#[test]
fn what_a_report_lacks_is_zero() {
    assert_eq!(get_sensor_info(b""), Ok(zero()));
    assert_eq!(get_sensor_info(b"Adapter: ISA adapter\n"), Ok(zero()));
    assert_eq!(
        get_sensor_info(b"CPU Fan: 900 RPM\n"),
        Ok(Sensor { cpu_fan_rpm: 900, ..zero() })
    );
}

#[test]
fn later_lines_replace_earlier_ones() {
    assert_eq!(
        get_sensor_info(b"CPU Temperature: +40.0 C\nCPU Temperature: +41.0 C\n"),
        Ok(Sensor { cpu_temp: 41, ..zero() })
    );
}

#[test]
fn sensor_errors() {
    assert_eq!(get_sensor_info(b"CPU Temperature +40.0\n"), Err(ErrorKind::GetTempFailed));
    assert_eq!(get_sensor_info(b"CPU Temperature: +40\n"), Err(ErrorKind::GetTempFailed));
    assert_eq!(get_sensor_info(b"Chipset Temperature: +4x.0\n"), Err(ErrorKind::GetTempFailed));
    assert_eq!(get_sensor_info(b"Motherboard Temperature: .5\n"), Err(ErrorKind::GetTempFailed));
    assert_eq!(get_sensor_info(b"CPU Fan 1200 RPM\n"), Err(ErrorKind::GetRpmFailed));
    assert_eq!(get_sensor_info(b"CPU Fan: 1200\n"), Err(ErrorKind::GetRpmFailed));
    assert_eq!(get_sensor_info(b"Chassis Fan 1: fast RPM\n"), Err(ErrorKind::GetRpmFailed));
    assert_eq!(
        get_sensor_info(b"CPU Fan: x RPM\nCPU Temperature: bad\n"),
        Err(ErrorKind::GetRpmFailed)
    );
    assert_eq!(
        get_sensor_info(b"CPU Temperature: bad\nCPU Fan: x RPM\n"),
        Err(ErrorKind::GetTempFailed)
    );
}

#[test]
fn temperature_lines() {
    assert_eq!(get_temperature(b"CPU Temperature:  +45.0 C"), Ok(45));
    assert_eq!(get_temperature(b"x: -7.5"), Ok(7));
    assert_eq!(get_temperature(b"x: +100.25"), Ok(100));
    assert_eq!(get_temperature(b"x: 45.0"), Ok(5));
    assert_eq!(get_temperature(b"x: +.0"), Err(ErrorKind::GetTempFailed));
    assert_eq!(get_temperature(b"x: .0"), Err(ErrorKind::GetTempFailed));
    assert_eq!(get_temperature(b"x: +45"), Err(ErrorKind::GetTempFailed));
    assert_eq!(get_temperature(b"x +45.0"), Err(ErrorKind::GetTempFailed));
    assert_eq!(get_temperature(b""), Err(ErrorKind::GetTempFailed));
}

#[test]
fn fan_lines() {
    assert_eq!(get_rpm(b"CPU Fan:   1200 RPM"), Ok(1200));
    assert_eq!(get_rpm(b"x: 0 RPM"), Ok(0));
    assert_eq!(get_rpm(b"x: 1200"), Err(ErrorKind::GetRpmFailed));
    assert_eq!(get_rpm(b"x: 1200RPM"), Err(ErrorKind::GetRpmFailed));
    assert_eq!(get_rpm(b"x 1200 RPM"), Err(ErrorKind::GetRpmFailed));
    assert_eq!(get_rpm(b"x: twelve RPM"), Err(ErrorKind::GetRpmFailed));
    assert_eq!(read_count(b"x: 12 units"), Some(12));
    assert_eq!(read_count(b"x: 12"), None);
}

#[test]
fn one_line_at_a_time() {
    let s = zero();
    assert_eq!(update_sensor(s, b"nothing of note"), Ok(s));
    assert_eq!(
        update_sensor(s, b"Chassis Fan 1: 700 RPM"),
        Ok(Sensor { chassis_fan_rpm: 700, ..s })
    );
    assert_eq!(update_sensor(s, b"Chassis Fan 2: 700 RPM"), Ok(s));
    assert_eq!(
        update_sensor(s, b"Motherboard Temperature: +30.0"),
        Ok(Sensor { mb_temp: 30, ..s })
    );
}

#[test]
fn drive_temperature() {
    assert_eq!(get_nvme_hdd_temp(NVME.as_bytes()), Ok(38));
    assert_eq!(get_nvme_hdd_temp(b"temperature : 41 C\ntemperature : 42 C\n"), Ok(41));
    assert_eq!(get_nvme_hdd_temp(b"temperature 41 C\ntemperature : 42 C\n"), Ok(42));
    assert_eq!(get_nvme_hdd_temp(b"temperature : 41\ntemperature : 42 C\n"), Ok(42));
}

#[test]
fn drive_temperature_errors() {
    assert_eq!(get_nvme_hdd_temp(b""), Err(ErrorKind::GetNvmeHDDTempFailed));
    assert_eq!(
        get_nvme_hdd_temp(b"critical_warning : 0\n"),
        Err(ErrorKind::GetNvmeHDDTempFailed)
    );
    assert_eq!(get_nvme_hdd_temp(b"temperature : 41\n"), Err(ErrorKind::GetNvmeHDDTempFailed));
    assert_eq!(
        get_nvme_hdd_temp(b"temperature : warm C\ntemperature : 42 C\n"),
        Err(ErrorKind::GetNvmeHDDTempFailed)
    );
}

#[test]
fn shape_of_a_temperature_line() {
    assert!(recognize_temperature_line(b"temperature : 38 C"));
    assert!(recognize_temperature_line(b"temperature : warm C"));
    assert!(!recognize_temperature_line(b"temperature : 38"));
    assert!(!recognize_temperature_line(b"temperature 38 C"));
    assert!(!recognize_temperature_line(b"Temperature : 38 C"));
}
