use cts6_emulator::cli::{parse_args, Startup};

fn ask(args: &[&str]) -> Startup {
    let args: Vec<String> = args.iter().map(|a| a.to_string()).collect();
    parse_args(&args)
}

fn addr(s: Startup) -> String {
    match s {
        Startup::Serve(a) => a,
        _ => panic!(),
    }
}

#[test]
fn the_address_is_read() {
    assert_eq!(addr(ask(&[])), "127.0.0.1:1337");
    assert_eq!(addr(ask(&["--addr", "0.0.0.0:9"])), "0.0.0.0:9");
    assert_eq!(addr(ask(&["-a", "x", "-a", "y"])), "y");
    assert_eq!(addr(ask(&["-a", "--help"])), "--help");
    assert_eq!(addr(ask(&["-a"])), "127.0.0.1:1337");
    assert_eq!(addr(ask(&["-a", "z", "--addr"])), "z");
}

#[test]
fn the_first_other_flag_decides() {
    assert!(matches!(ask(&["-h"]), Startup::Usage));
    assert!(matches!(ask(&["-a", "x", "--help", "--bad"]), Startup::Usage));
    match ask(&["--bad", "-h"]) {
        Startup::Unknown(f) => assert_eq!(f, "--bad"),
        _ => panic!(),
    }
}
