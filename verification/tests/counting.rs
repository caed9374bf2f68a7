use char_count::counter::count;
use char_count::counter::count_chunk;
use char_count::counter::split_chunks;
use char_count::target::TargetSet;

#[test]
fn emoji() {
    let content = String::from("Lorem ipsum 🍆🍑💦🌽🌽🌽🥑");
    let mut pattern = TargetSet::new();
    pattern.insert_char('\u{1F33D}');

    assert_eq!(count(&content, pattern), 3);
}

#[test]
fn empty() {
    let content = String::new();
    let mut pattern = TargetSet::new();
    pattern.insert_char('o');

    assert_eq!(count(&content, pattern), 0);
}

#[test]
fn not_alphanumeric() {
    let content = String::from("https://habr.com/ru/articles/733454/ Долгое время я жил в районе, где общественный транспорт был скорее проблемой, чем благом (привет, Кудрово!). Приходилось в любую погоду ходить пешком до метро три километра, в мороз, слякоть и зной. Спустя некоторое время я переехал и появилась возможность доезжать от офиса до дома на прямом автобусе. Это звучит очень клево, но единственный маршрут ходит с большим интервалом и как попало. Приходилось или подолгу стоять на остановке, или нервно поглядывать на Яндекс.Карты и отслеживать перемещения ближайшего автобуса последние полчаса перед выходом, что сводило на нет остатки продуктивности и неслабо раздражало.");
    let mut pattern = TargetSet::new();
    pattern.insert_char(' ');
    pattern.insert_char('.');
    pattern.insert_char(',');
    pattern.insert_char('!');
    pattern.insert_char('(');
    pattern.insert_char(')');
    pattern.insert_char(':');
    pattern.insert_char('/');

    assert_eq!(count(&content, pattern), 115);
}

#[test]
fn tokens_are_flattened_and_deduplicated() {
    let tokens = vec![String::from("ab"), String::from("c")];
    let pattern = TargetSet::from_tokens(&tokens);
    let content = String::from("abcabc");

    assert_eq!(count(&content, pattern), 6);
}

#[test]
fn token_order_and_repetition_are_irrelevant() {
    let content = String::from("abcabc");

    let tokens = vec![String::from("c"), String::from("ba"), String::from("ab")];
    let pattern = TargetSet::from_tokens(&tokens);
    assert_eq!(count(&content, pattern), 6);

    let mut pattern = TargetSet::new();
    pattern.insert_char('a');
    pattern.insert_char('a');
    pattern.insert_char('a');
    assert_eq!(count(&content, pattern), 2);
}

#[test]
fn repeated_runs_agree() {
    let content = String::from("mississippi");
    let first = {
        let mut pattern = TargetSet::new();
        pattern.insert_char('s');
        pattern.insert_char('i');
        count(&content, pattern)
    };
    let second = {
        let mut pattern = TargetSet::new();
        pattern.insert_char('s');
        pattern.insert_char('i');
        count(&content, pattern)
    };

    assert_eq!(first, 8);
    assert_eq!(second, 8);
}

#[test]
fn empty_target_set_matches_nothing() {
    let content = String::from("any text at all, with punctuation!");
    let pattern = TargetSet::new();

    assert_eq!(count(&content, pattern), 0);
}

#[test]
fn matches_scalar_values_not_glyphs() {
    // A single user-perceived glyph built from several scalar values:
    // woman, zero-width joiner, rocket; then a lone woman scalar.
    let content = String::from("\u{1F469}\u{200D}\u{1F680}\u{1F469}");

    let mut pattern = TargetSet::new();
    pattern.insert_char('\u{1F469}');
    assert_eq!(count(&content, pattern), 2);

    let mut pattern = TargetSet::new();
    pattern.insert_char('\u{1F680}');
    assert_eq!(count(&content, pattern), 1);

    let mut pattern = TargetSet::new();
    pattern.insert_char('\u{200D}');
    assert_eq!(count(&content, pattern), 1);
}

#[test]
fn chunked_counts_sum_to_the_whole() {
    let content = String::from("to be, or not to be: that is the question \u{1F33D}!");
    let whole = {
        let mut pattern = TargetSet::new();
        pattern.insert_char('t');
        pattern.insert_char(' ');
        pattern.insert_char('\u{1F33D}');
        count(&content, pattern)
    };

    for chunk_len in [1usize, 2, 3, 7, 1000] {
        let mut pattern = TargetSet::new();
        pattern.insert_char('t');
        pattern.insert_char(' ');
        pattern.insert_char('\u{1F33D}');
        let chunks = split_chunks(content.as_str(), chunk_len);
        let mut total = 0usize;
        let mut glued = String::new();
        for chunk in &chunks {
            total += count_chunk(chunk, &pattern);
            glued.push_str(chunk);
        }
        assert_eq!(total, whole);
        assert_eq!(glued, content);
    }
}

#[test]
fn membership_is_exact() {
    let mut pattern = TargetSet::new();
    pattern.insert_char('x');
    pattern.insert_char('x');
    pattern.insert_char('y');

    assert!(pattern.contains_char('x'));
    assert!(pattern.contains_char('y'));
    assert!(!pattern.contains_char('z'));
}
