use exercises::fizzbuzz::{extended_word, fizzbuzz_word, fizzbuzz_words};

#[test]
fn test_fizzbuzz_values() {
    let result: Vec<String> = fizzbuzz_words(15);

    assert_eq!(result[0], "1");
    assert_eq!(result[2], "Fizz");
    assert_eq!(result[4], "Buzz");
    assert_eq!(result[14], "FizzBuzz");
}

#[test]
fn fizzbuzz_numbers_and_words() {
    assert_eq!(fizzbuzz_word(98), "98");
    assert_eq!(fizzbuzz_word(30), "FizzBuzz");
    assert_eq!(fizzbuzz_word(4294967295), "FizzBuzz");
}

#[test]
fn extended_rules() {
    assert_eq!(extended_word(7), "Bazz");
    assert_eq!(extended_word(21), "FizzBazz");
    assert_eq!(extended_word(105), "FizzBuzzBazz");
    assert_eq!(extended_word(11), "11");
}
