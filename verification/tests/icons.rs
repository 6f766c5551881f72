use omniphony_studio_egui::icons::{command_runs, number_tokens};

fn chars(s: &str) -> Vec<char> {
    s.chars().collect()
}

/// The numbers of an argument list: its tokens, each read as a number.
fn numbers(s: &str) -> Vec<f32> {
    number_tokens(&chars(s))
        .iter()
        .filter_map(|t| t.iter().collect::<String>().parse::<f32>().ok())
        .collect()
}

#[test]
fn numbers_split_on_signs_and_second_points() {
    assert_eq!(numbers("-2.3-2.3-2.3-6.1 0-8.5"), vec![-2.3, -2.3, -2.3, -6.1, 0.0, -8.5]);
    assert_eq!(numbers("0 0 0 .586 1.414"), vec![0.0, 0.0, 0.0, 0.586, 1.414]);
    assert_eq!(numbers("1.2.5"), vec![1.2, 0.5]);
}

#[test]
fn exponents_keep_their_sign_and_commands_split_the_path() {
    let tokens: Vec<String> = number_tokens(&chars("1e-3,2E+1 -4"))
        .iter()
        .map(|t| t.iter().collect())
        .collect();
    assert_eq!(tokens, vec!["1e-3", "2E+1", "-4"]);
    let runs: Vec<(char, String)> = command_runs(&chars(" M3 9h18M3 15e2z"))
        .into_iter()
        .map(|(c, a)| (c, a.into_iter().collect()))
        .collect();
    assert_eq!(
        runs,
        vec![('M', "3 9".to_owned()), ('h', "18".to_owned()), ('M', "3 15e2".to_owned()), ('z', String::new())]
    );
}
