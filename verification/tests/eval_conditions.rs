//! The condition-evaluation corpus: each case is a name, a condition
//! object, an attribute bag, and the expected outcome.

use growthbook_rust_sdk::feature::condition::ConditionEnabledCheck;
use growthbook_rust_sdk::model_public::{Decimal, GrowthBookAttribute, GrowthBookAttributeValue};

fn decimal_from_f64(f: f64) -> Decimal {
    let s = format!("{}", f);
    let (m, e): (i64, u32) = match s.find('.') {
        Some(pos) => {
            let frac = s.len() - pos - 1;
            let digits: String = s.chars().filter(|c| *c != '.').collect();
            (digits.parse().expect("mantissa"), frac as u32)
        }
        None => (s.parse().expect("integer mantissa"), 0),
    };
    Decimal::new(m, e).expect("decimal in range")
}

fn to_value(v: &serde_json::Value) -> GrowthBookAttributeValue {
    match v {
        serde_json::Value::Null => GrowthBookAttributeValue::Empty,
        serde_json::Value::Bool(b) => GrowthBookAttributeValue::Bool(*b),
        serde_json::Value::Number(n) => {
            if let Some(i) = n.as_i64() {
                GrowthBookAttributeValue::Int(i)
            } else {
                GrowthBookAttributeValue::Float(decimal_from_f64(n.as_f64().expect("number")))
            }
        }
        serde_json::Value::String(s) => GrowthBookAttributeValue::String(s.clone()),
        serde_json::Value::Array(items) => {
            GrowthBookAttributeValue::Array(items.iter().map(to_value).collect())
        }
        serde_json::Value::Object(map) => GrowthBookAttributeValue::Object(
            map.iter()
                .map(|(k, v)| GrowthBookAttribute {
                    key: k.clone(),
                    value: to_value(v),
                })
                .collect(),
        ),
    }
}

fn to_attrs(v: &serde_json::Value) -> Vec<GrowthBookAttribute> {
    match to_value(v) {
        GrowthBookAttributeValue::Object(fields) => fields,
        _ => panic!("expected an object"),
    }
}

#[test]
fn eval_conditions() {
    let corpus: serde_json::Value = serde_json::from_str(CASES).expect("corpus parses");
    let cases = corpus.as_array().expect("corpus is an array");
    assert_eq!(cases.len(), 205);
    let mut failures: Vec<String> = Vec::new();
    for case in cases {
        let parts = case.as_array().expect("case is an array");
        let name = parts[0].as_str().expect("case name");
        let condition = to_attrs(&parts[1]);
        let attributes = to_attrs(&parts[2]);
        let expected = parts[3].as_bool().expect("expected outcome");
        let got = condition.is_on(&attributes);
        if got != expected {
            failures.push(format!("{name}: got {got}, expected {expected}"));
        }
    }
    if !failures.is_empty() {
        panic!("{} corpus cases failed: {:?}", failures.len(), failures);
    }
}

const CASES: &str = r##"[
    [
      "$not - pass",
      {
        "$not": {
          "name": "hello"
        }
      },
      {
        "name": "world"
      },
      true
    ],
    [
      "$not - fail",
      {
        "$not": {
          "name": "hello"
        }
      },
      {
        "name": "hello"
      },
      false
    ],
    [
      "$and/$or - all true",
      {
        "$and": [
          {
            "father.age": {
              "$gt": 65
            }
          },
          {
            "$or": [
              {
                "bday": {
                  "$regex": "-12-25$"
                }
              },
              {
                "name": "santa"
              }
            ]
          }
        ]
      },
      {
        "name": "santa",
        "bday": "1980-12-25",
        "father": {
          "age": 70
        }
      },
      true
    ],
    [
      "$groups - match",
      {
        "$and": [
          {
            "$groups": {
              "$elemMatch": { "$eq": "a" }
            }
          },
          {
            "$groups": {
              "$elemMatch": { "$eq": "b" }
            }
          },
          {
            "$or": [
              {
                "$groups": {
                  "$elemMatch": { "$eq": "c" }
                }
              },
              {
                "$groups": {
                  "$elemMatch": { "$eq": "e" }
                }
              }
            ]
          },
          {
            "$not": {
              "$groups": {
                "$elemMatch": { "$eq": "f" }
              }
            }
          },
          {
            "$not": {
              "$groups": {
                "$elemMatch": { "$eq": "g" }
              }
            }
          }
        ]
      },
      {
        "$groups": ["a", "b", "c", "d"]
      },
      true
    ],
    [
      "$groups - no match",
      {
        "$and": [
          {
            "$groups": {
              "$elemMatch": { "$eq": "a" }
            }
          },
          {
            "$groups": {
              "$elemMatch": { "$eq": "b" }
            }
          },
          {
            "$or": [
              {
                "$groups": {
                  "$elemMatch": { "$eq": "c" }
                }
              },
              {
                "$groups": {
                  "$elemMatch": { "$eq": "e" }
                }
              }
            ]
          },
          {
            "$not": {
              "$groups": {
                "$elemMatch": { "$eq": "d" }
              }
            }
          },
          {
            "$not": {
              "$groups": {
                "$elemMatch": { "$eq": "g" }
              }
            }
          }
        ]
      },
      {
        "$groups": ["a", "b", "c", "d"]
      },
      false
    ],
    [
      "$and/$or - first or true",
      {
        "$and": [
          {
            "father.age": {
              "$gt": 65
            }
          },
          {
            "$or": [
              {
                "bday": {
                  "$regex": "-12-25$"
                }
              },
              {
                "name": "santa"
              }
            ]
          }
        ]
      },
      {
        "name": "santa",
        "bday": "1980-12-20",
        "father": {
          "age": 70
        }
      },
      true
    ],
    [
      "$and/$or - second or true",
      {
        "$and": [
          {
            "father.age": {
              "$gt": 65
            }
          },
          {
            "$or": [
              {
                "bday": {
                  "$regex": "-12-25$"
                }
              },
              {
                "name": "santa"
              }
            ]
          }
        ]
      },
      {
        "name": "barbara",
        "bday": "1980-12-25",
        "father": {
          "age": 70
        }
      },
      true
    ],
    [
      "$and/$or - first and false",
      {
        "$and": [
          {
            "father.age": {
              "$gt": 65
            }
          },
          {
            "$or": [
              {
                "bday": {
                  "$regex": "-12-25$"
                }
              },
              {
                "name": "santa"
              }
            ]
          }
        ]
      },
      {
        "name": "santa",
        "bday": "1980-12-25",
        "father": {
          "age": 65
        }
      },
      false
    ],
    [
      "$and/$or - both or false",
      {
        "$and": [
          {
            "father.age": {
              "$gt": 65
            }
          },
          {
            "$or": [
              {
                "bday": {
                  "$regex": "-12-25$"
                }
              },
              {
                "name": "santa"
              }
            ]
          }
        ]
      },
      {
        "name": "barbara",
        "bday": "1980-11-25",
        "father": {
          "age": 70
        }
      },
      false
    ],
    [
      "$and/$or - both and false",
      {
        "$and": [
          {
            "father.age": {
              "$gt": 65
            }
          },
          {
            "$or": [
              {
                "bday": {
                  "$regex": "-12-25$"
                }
              },
              {
                "name": "santa"
              }
            ]
          }
        ]
      },
      {
        "name": "john smith",
        "bday": "1956-12-20",
        "father": {
          "age": 40
        }
      },
      false
    ],
    [
      "$exists - false pass",
      {
        "pets.dog.name": {
          "$exists": false
        }
      },
      {
        "hello": "world"
      },
      true
    ],
    [
      "$exists - false fail",
      {
        "pets.dog.name": {
          "$exists": false
        }
      },
      {
        "pets": {
          "dog": {
            "name": "fido"
          }
        }
      },
      false
    ],
    [
      "$exists - true fail",
      {
        "pets.dog.name": {
          "$exists": true
        }
      },
      {
        "hello": "world"
      },
      false
    ],
    [
      "$exists - true pass",
      {
        "pets.dog.name": {
          "$exists": true
        }
      },
      {
        "pets": {
          "dog": {
            "name": "fido"
          }
        }
      },
      true
    ],
    [
      "equals - multiple datatypes",
      {
        "str": "str",
        "num": 10,
        "flag": false
      },
      {
        "str": "str",
        "num": 10,
        "flag": false
      },
      true
    ],
    [
      "$in - pass",
      {
        "num": {
          "$in": [1, 2, 3]
        }
      },
      {
        "num": 2
      },
      true
    ],
    [
      "$in - fail",
      {
        "num": {
          "$in": [1, 2, 3]
        }
      },
      {
        "num": 4
      },
      false
    ],
    [
      "$in - not array",
      {
        "num": {
          "$in": 1
        }
      },
      {
        "num": 1
      },
      false
    ],
    [
      "$in - array pass 1",
      {
        "tags": {
          "$in": ["a", "b"]
        }
      },
      {
        "tags": ["d", "e", "a"]
      },
      true
    ],
    [
      "$in - array pass 2",
      {
        "tags": {
          "$in": ["a", "b"]
        }
      },
      {
        "tags": ["d", "b", "f"]
      },
      true
    ],
    [
      "$in - array pass 3",
      {
        "tags": {
          "$in": ["a", "b"]
        }
      },
      {
        "tags": ["d", "b", "a"]
      },
      true
    ],
    [
      "$in - array fail 1",
      {
        "tags": {
          "$in": ["a", "b"]
        }
      },
      {
        "tags": ["d", "e", "f"]
      },
      false
    ],
    [
      "$in - array fail 2",
      {
        "tags": {
          "$in": ["a", "b"]
        }
      },
      {
        "tags": []
      },
      false
    ],
    [
      "$nin - pass",
      {
        "num": {
          "$nin": [1, 2, 3]
        }
      },
      {
        "num": 4
      },
      true
    ],
    [
      "$nin - fail",
      {
        "num": {
          "$nin": [1, 2, 3]
        }
      },
      {
        "num": 2
      },
      false
    ],
    [
      "$nin - not array",
      {
        "num": {
          "$nin": 1
        }
      },
      {
        "num": 1
      },
      false
    ],
    [
      "$nin - array fail 1",
      {
        "tags": {
          "$nin": ["a", "b"]
        }
      },
      {
        "tags": ["d", "e", "a"]
      },
      false
    ],
    [
      "$nin - array fail 2",
      {
        "tags": {
          "$nin": ["a", "b"]
        }
      },
      {
        "tags": ["d", "b", "f"]
      },
      false
    ],
    [
      "$nin - array fail 3",
      {
        "tags": {
          "$nin": ["a", "b"]
        }
      },
      {
        "tags": ["d", "b", "a"]
      },
      false
    ],
    [
      "$nin - array pass 1",
      {
        "tags": {
          "$nin": ["a", "b"]
        }
      },
      {
        "tags": ["d", "e", "f"]
      },
      true
    ],
    [
      "$nin - array pass 2",
      {
        "tags": {
          "$nin": ["a", "b"]
        }
      },
      {
        "tags": []
      },
      true
    ],
    [
      "$elemMatch - pass - flat arrays",
      {
        "nums": {
          "$elemMatch": {
            "$gt": 10
          }
        }
      },
      {
        "nums": [0, 5, -20, 15]
      },
      true
    ],
    [
      "$elemMatch - fail - flat arrays",
      {
        "nums": {
          "$elemMatch": {
            "$gt": 10
          }
        }
      },
      {
        "nums": [0, 5, -20, 8]
      },
      false
    ],
    [
      "missing attribute - fail",
      {
        "pets.dog.name": {
          "$in": ["fido"]
        }
      },
      {
        "hello": "world"
      },
      false
    ],
    [
      "missing attribute with comparison operators",
      {
        "age": {
          "$gt": -10,
          "$lt": 10,
          "$gte": -9,
          "$lte": 9,
          "$ne": 10
        }
      },
      {},
      true
    ],
    [
      "comparing numbers and strings",
      {
        "n": {
          "$gt": 5,
          "$lt": 10
        }
      },
      {
        "n": "8"
      },
      true
    ],
    [
      "comparing numbers and strings - v2",
      {
        "n": {
          "$gt": "5",
          "$lt": "10"
        }
      },
      {
        "n": 8
      },
      true
    ],
    [
      "empty $or - pass",
      {
        "$or": []
      },
      {
        "hello": "world"
      },
      true
    ],
    [
      "empty $and - pass",
      {
        "$and": []
      },
      {
        "hello": "world"
      },
      true
    ],
    [
      "$eq - pass",
      {
        "occupation": {
          "$eq": "engineer"
        }
      },
      {
        "occupation": "engineer"
      },
      true
    ],
    [
      "$eq - fail",
      {
        "occupation": {
          "$eq": "engineer"
        }
      },
      {
        "occupation": "civil engineer"
      },
      false
    ],
    [
      "$ne - pass",
      {
        "level": {
          "$ne": "senior"
        }
      },
      {
        "level": "junior"
      },
      true
    ],
    [
      "$ne - fail",
      {
        "level": {
          "$ne": "senior"
        }
      },
      {
        "level": "senior"
      },
      false
    ],
    [
      "$regex - pass",
      {
        "userAgent": {
          "$regex": "(Mobile|Tablet)"
        }
      },
      {
        "userAgent": "Android Mobile Browser"
      },
      true
    ],
    [
      "$regex - fail",
      {
        "userAgent": {
          "$regex": "(Mobile|Tablet)"
        }
      },
      {
        "userAgent": "Chrome Desktop Browser"
      },
      false
    ],
    [
      "$gt/$lt numbers - pass",
      {
        "age": {
          "$gt": 30,
          "$lt": 60
        }
      },
      {
        "age": 50
      },
      true
    ],
    [
      "$gt/$lt numbers - fail $lt",
      {
        "age": {
          "$gt": 30,
          "$lt": 60
        }
      },
      {
        "age": 60
      },
      false
    ],
    [
      "$gt/$lt numbers - fail $gt",
      {
        "age": {
          "$gt": 30,
          "$lt": 60
        }
      },
      {
        "age": 30
      },
      false
    ],
    [
      "$gte/$lte numbers - pass",
      {
        "age": {
          "$gte": 30,
          "$lte": 60
        }
      },
      {
        "age": 50
      },
      true
    ],
    [
      "$gte/$lte numbers - pass $gte",
      {
        "age": {
          "$gte": 30,
          "$lte": 60
        }
      },
      {
        "age": 30
      },
      true
    ],
    [
      "$gte/$lte numbers - pass $lte",
      {
        "age": {
          "$gte": 30,
          "$lte": 60
        }
      },
      {
        "age": 60
      },
      true
    ],
    [
      "$gte/$lte numbers - fail $lte",
      {
        "age": {
          "$gte": 30,
          "$lte": 60
        }
      },
      {
        "age": 61
      },
      false
    ],
    [
      "$gte/$lte numbers - fail $gte",
      {
        "age": {
          "$gt": 30,
          "$lt": 60
        }
      },
      {
        "age": 29
      },
      false
    ],
    [
      "$gt/$lt strings - fail $gt",
      {
        "word": {
          "$gt": "alphabet",
          "$lt": "zebra"
        }
      },
      {
        "word": "alphabet"
      },
      false
    ],
    [
      "$gt/$lt strings - fail $lt",
      {
        "word": {
          "$gt": "alphabet",
          "$lt": "zebra"
        }
      },
      {
        "word": "zebra"
      },
      false
    ],
    [
      "$gt/$lt strings - pass",
      {
        "word": {
          "$gt": "alphabet",
          "$lt": "zebra"
        }
      },
      {
        "word": "always"
      },
      true
    ],
    [
      "$gt/$lt strings - fail uppercase",
      {
        "word": {
          "$gt": "alphabet",
          "$lt": "zebra"
        }
      },
      {
        "word": "AZL"
      },
      false
    ],
    [
      "nested value is null",
      {
        "address.state": "CA"
      },
      {
        "address": null
      },
      false
    ],
    [
      "nested value is integer",
      {
        "address.state": "CA"
      },
      {
        "address": 123
      },
      false
    ],
    [
      "$type string - pass",
      {
        "a": {
          "$type": "string"
        }
      },
      {
        "a": "a"
      },
      true
    ],
    [
      "$type string - fail",
      {
        "a": {
          "$type": "string"
        }
      },
      {
        "a": 1
      },
      false
    ],
    [
      "$type null - pass",
      {
        "a": {
          "$type": "null"
        }
      },
      {
        "a": null
      },
      true
    ],
    [
      "$type null - fail",
      {
        "a": {
          "$type": "null"
        }
      },
      {
        "a": 1
      },
      false
    ],
    [
      "$type boolean - pass",
      {
        "a": {
          "$type": "boolean"
        }
      },
      {
        "a": false
      },
      true
    ],
    [
      "$type boolean - fail",
      {
        "a": {
          "$type": "boolean"
        }
      },
      {
        "a": 1
      },
      false
    ],
    [
      "$type number - pass",
      {
        "a": {
          "$type": "number"
        }
      },
      {
        "a": 1
      },
      true
    ],
    [
      "$type number - fail",
      {
        "a": {
          "$type": "number"
        }
      },
      {
        "a": "a"
      },
      false
    ],
    [
      "$type object - pass",
      {
        "a": {
          "$type": "object"
        }
      },
      {
        "a": {
          "a": "b"
        }
      },
      true
    ],
    [
      "$type object - fail",
      {
        "a": {
          "$type": "object"
        }
      },
      {
        "a": 1
      },
      false
    ],
    [
      "$type array - pass",
      {
        "a": {
          "$type": "array"
        }
      },
      {
        "a": [1, 2]
      },
      true
    ],
    [
      "$type array - fail",
      {
        "a": {
          "$type": "array"
        }
      },
      {
        "a": 1
      },
      false
    ],
    [
      "unknown operator - pass",
      {
        "name": {
          "$regx": "hello"
        }
      },
      {
        "name": "hello"
      },
      false
    ],
    [
      "$regex invalid - pass",
      {
        "name": {
          "$regex": "/???***[)"
        }
      },
      {
        "name": "hello"
      },
      false
    ],
    [
      "$regex invalid - fail",
      {
        "name": {
          "$regex": "/???***[)"
        }
      },
      {
        "hello": "hello"
      },
      false
    ],
    [
      "$size empty - pass",
      {
        "tags": { "$size": 0 }
      },
      {
        "tags": []
      },
      true
    ],
    [
      "$size empty - fail",
      {
        "tags": { "$size": 0 }
      },
      {
        "tags": [10]
      },
      false
    ],
    [
      "$size number - pass",
      {
        "tags": {
          "$size": 3
        }
      },
      {
        "tags": ["a", "b", "c"]
      },
      true
    ],
    [
      "$size number - fail small",
      {
        "tags": {
          "$size": 3
        }
      },
      {
        "tags": ["a", "b"]
      },
      false
    ],
    [
      "$size number - fail large",
      {
        "tags": {
          "$size": 3
        }
      },
      {
        "tags": ["a", "b", "c", "d"]
      },
      false
    ],
    [
      "$size number - fail not array",
      {
        "tags": {
          "$size": 3
        }
      },
      {
        "tags": "abc"
      },
      false
    ],
    [
      "$size nested - pass",
      {
        "tags": {
          "$size": {
            "$gt": 2
          }
        }
      },
      {
        "tags": [0, 1, 2]
      },
      true
    ],
    [
      "$size nested - fail equal",
      {
        "tags": {
          "$size": {
            "$gt": 2
          }
        }
      },
      {
        "tags": [0, 1]
      },
      false
    ],
    [
      "$size nested - fail less than",
      {
        "tags": {
          "$size": {
            "$gt": 2
          }
        }
      },
      {
        "tags": [0]
      },
      false
    ],
    [
      "$elemMatch contains - pass",
      {
        "tags": {
          "$elemMatch": {
            "$eq": "bar"
          }
        }
      },
      {
        "tags": ["foo", "bar", "baz"]
      },
      true
    ],
    [
      "$elemMatch contains - false",
      {
        "tags": {
          "$elemMatch": {
            "$eq": "bar"
          }
        }
      },
      {
        "tags": ["foo", "baz"]
      },
      false
    ],
    [
      "$elemMatch intersection - pass",
      {
        "tags": {
          "$elemMatch": {
            "$in": ["a", "b"]
          }
        }
      },
      {
        "tags": ["d", "e", "b"]
      },
      true
    ],
    [
      "$elemMatch intersection - fail",
      {
        "tags": {
          "$elemMatch": {
            "$in": ["a", "b"]
          }
        }
      },
      {
        "tags": ["d", "e", "f"]
      },
      false
    ],
    [
      "$elemMatch not contains - pass",
      {
        "tags": {
          "$not": {
            "$elemMatch": {
              "$eq": "bar"
            }
          }
        }
      },
      {
        "tags": ["foo", "baz"]
      },
      true
    ],
    [
      "$elemMatch not contains - fail",
      {
        "tags": {
          "$not": {
            "$elemMatch": {
              "$eq": "bar"
            }
          }
        }
      },
      {
        "tags": ["foo", "bar", "baz"]
      },
      false
    ],
    [
      "$elemMatch nested - pass",
      {
        "hobbies": {
          "$elemMatch": {
            "name": {
              "$regex": "^ping"
            }
          }
        }
      },
      {
        "hobbies": [
          {
            "name": "bowling"
          },
          {
            "name": "pingpong"
          },
          {
            "name": "tennis"
          }
        ]
      },
      true
    ],
    [
      "$elemMatch nested - fail",
      {
        "hobbies": {
          "$elemMatch": {
            "name": {
              "$regex": "^ping"
            }
          }
        }
      },
      {
        "hobbies": [
          {
            "name": "bowling"
          },
          {
            "name": "tennis"
          }
        ]
      },
      false
    ],
    [
      "$elemMatch nested - fail not array",
      {
        "hobbies": {
          "$elemMatch": {
            "name": {
              "$regex": "^ping"
            }
          }
        }
      },
      {
        "hobbies": "all"
      },
      false
    ],
    [
      "$not - pass",
      {
        "name": {
          "$not": {
            "$regex": "^hello"
          }
        }
      },
      {
        "name": "world"
      },
      true
    ],
    [
      "$not - fail",
      {
        "name": {
          "$not": {
            "$regex": "^hello"
          }
        }
      },
      {
        "name": "hello world"
      },
      false
    ],
    [
      "$all - pass",
      {
        "tags": {
          "$all": ["one", "three"]
        }
      },
      {
        "tags": ["one", "two", "three"]
      },
      true
    ],
    [
      "$all - fail",
      {
        "tags": {
          "$all": ["one", "three"]
        }
      },
      {
        "tags": ["one", "two", "four"]
      },
      false
    ],
    [
      "$all - fail not array",
      {
        "tags": {
          "$all": ["one", "three"]
        }
      },
      {
        "tags": "hello"
      },
      false
    ],
    [
      "$nor - pass",
      {
        "$nor": [
          {
            "name": "john"
          },
          {
            "age": {
              "$lt": 30
            }
          }
        ]
      },
      {
        "name": "jim",
        "age": 40
      },
      true
    ],
    [
      "$nor - fail both",
      {
        "$nor": [
          {
            "name": "john"
          },
          {
            "age": {
              "$lt": 30
            }
          }
        ]
      },
      {
        "name": "john",
        "age": 20
      },
      false
    ],
    [
      "$nor - fail first",
      {
        "$nor": [
          {
            "name": "john"
          },
          {
            "age": {
              "$lt": 30
            }
          }
        ]
      },
      {
        "name": "john",
        "age": 40
      },
      false
    ],
    [
      "$nor - fail second",
      {
        "$nor": [
          {
            "name": "john"
          },
          {
            "age": {
              "$lt": 30
            }
          }
        ]
      },
      {
        "name": "jim",
        "age": 20
      },
      false
    ],
    [
      "equals array - pass",
      {
        "tags": ["hello", "world"]
      },
      {
        "tags": ["hello", "world"]
      },
      true
    ],
    [
      "equals array - fail order",
      {
        "tags": ["hello", "world"]
      },
      {
        "tags": ["world", "hello"]
      },
      false
    ],
    [
      "equals array - fail missing item",
      {
        "tags": ["hello", "world"]
      },
      {
        "tags": ["hello"]
      },
      false
    ],
    [
      "equals array - fail extra item",
      {
        "tags": ["hello", "world"]
      },
      {
        "tags": ["hello", "world", "foo"]
      },
      false
    ],
    [
      "equals array - fail type mismatch",
      {
        "tags": ["hello", "world"]
      },
      {
        "tags": "hello world"
      },
      false
    ],
    [
      "equals object - pass",
      {
        "tags": {
          "hello": "world"
        }
      },
      {
        "tags": {
          "hello": "world"
        }
      },
      true
    ],
    [
      "equals object - fail extra property",
      {
        "tags": {
          "hello": "world"
        }
      },
      {
        "tags": {
          "hello": "world",
          "yes": "please"
        }
      },
      false
    ],
    [
      "equals object - fail missing property",
      {
        "tags": {
          "hello": "world"
        }
      },
      {
        "tags": {}
      },
      false
    ],
    [
      "equals object - fail type mismatch",
      {
        "tags": {
          "hello": "world"
        }
      },
      {
        "tags": "hello world"
      },
      false
    ],
    [
      "null condition - null attribute",
      {
        "userId": null
      },
      {
        "userId": null
      },
      true
    ],
    [
      "null condition - missing attribute",
      {
        "userId": null
      },
      {},
      true
    ],
    [
      "null condition - string attribute",
      {
        "userId": null
      },
      {
        "userId": "123"
      },
      false
    ],
    [
      "null condition - zero attribute",
      {
        "userId": null
      },
      {
        "userId": 0
      },
      false
    ],
    [
      "null condition - empty string attribute",
      {
        "userId": null
      },
      {
        "userId": ""
      },
      false
    ],
    [
      "$vgt/$vlt - pass - major",
      {
        "version": {
          "$vgt": "9.99.8",
          "$vlt": "11.0.1"
        }
      },
      {
        "version": "10.12.13"
      },
      true
    ],
    [
      "$vgt/$vlt - pass - minor",
      {
        "version": {
          "$vgt": "10.2.11",
          "$vlt": "10.20.11"
        }
      },
      {
        "version": "10.12.11"
      },
      true
    ],
    [
      "$vgt/$vlt - pass - patch",
      {
        "version": {
          "$vgt": "10.0.2",
          "$vlt": "10.0.20"
        }
      },
      {
        "version": "10.0.12"
      },
      true
    ],
    [
      "$vgt/$vlt - fail $vlt - major",
      {
        "version": {
          "$vgt": "30.0.0",
          "$vlt": "50.0.0"
        }
      },
      {
        "version": "60.0.0"
      },
      false
    ],
    [
      "$vgt/$vlt - fail $vlt - minor",
      {
        "version": {
          "$vgt": "10.30.0",
          "$vlt": "10.50.0"
        }
      },
      {
        "version": "10.60.0"
      },
      false
    ],
    [
      "$vgt/$vlt - fail $vlt - patch",
      {
        "version": {
          "$vgt": "10.2.30",
          "$vlt": "10.2.50"
        }
      },
      {
        "version": "10.2.60"
      },
      false
    ],
    [
      "$vgt/$vlt - fail $vgt - major",
      {
        "version": {
          "$vgt": "30.0.16",
          "$vlt": "50.0.16"
        }
      },
      {
        "version": "20.0.16"
      },
      false
    ],
    [
      "$vgt/$vlt - fail $vgt - minor",
      {
        "version": {
          "$vgt": "10.30.0",
          "$vlt": "10.50.0"
        }
      },
      {
        "version": "10.20.0"
      },
      false
    ],
    [
      "$vgt/$vlt - fail $vgt - patch",
      {
        "version": {
          "$vgt": "10.30.10",
          "$vlt": "10.30.20"
        }
      },
      {
        "version": "10.30.2"
      },
      false
    ],
    [
      "$vgte/$vlte - pass $vgte - major",
      {
        "version": {
          "$vgte": "30.1.2",
          "$vlte": "60.1.2"
        }
      },
      {
        "version": "30.1.2"
      },
      true
    ],
    [
      "$vgte/$vlte - pass $vgte - minor",
      {
        "version": {
          "$vgte": "5.30.2",
          "$vlte": "5.60.2"
        }
      },
      {
        "version": "5.30.2"
      },
      true
    ],
    [
      "$vgte/$vlte - pass $vgte - patch",
      {
        "version": {
          "$vgte": "5.10.30",
          "$vlte": "5.10.60"
        }
      },
      {
        "version": "5.10.30"
      },
      true
    ],
    [
      "$vgte/$vlte - pass $vlte - major",
      {
        "version": {
          "$vgte": "30.1.2",
          "$vlte": "60.1.2"
        }
      },
      {
        "version": "60.1.2"
      },
      true
    ],
    [
      "$vgte/$vlte - pass $vlte - minor",
      {
        "version": {
          "$vgte": "1.30.2",
          "$vlte": "1.60.2"
        }
      },
      {
        "version": "1.60.2"
      },
      true
    ],
    [
      "$vgte/$vlte - pass $vlte - patch",
      {
        "version": {
          "$vgte": "1.2.30",
          "$vlte": "1.2.60"
        }
      },
      {
        "version": "1.2.60"
      },
      true
    ],
    [
      "$vgte/$vlte - fail $vlte - major",
      {
        "version": {
          "$vgte": "30.1.2",
          "$vlte": "60.1.2"
        }
      },
      {
        "version": "61.1.2"
      },
      false
    ],
    [
      "$vgte/$vlte - fail $vgt - minor",
      {
        "version": {
          "$vgte": "30.1.2",
          "$vlte": "60.1.2"
        }
      },
      {
        "version": "29.1.2"
      },
      false
    ],
    [
      "$vgte/$vlte - fail $vgt - patch",
      {
        "version": {
          "$vgte": "1.2.30",
          "$vlte": "1.2.60"
        }
      },
      {
        "version": "1.2.29"
      },
      false
    ],
    [
      "$vgt/$vlt prerelease - fail $vgt",
      {
        "v": {
          "$vgt": "1.0.0-alpha",
          "$vlt": "1.0.0-beta"
        }
      },
      {
        "v": "1.0.0-alpha"
      },
      false
    ],
    [
      "$vgt/$vlt prerelease  w/ multiple fields - fail $vgt",
      {
        "v": {
          "$vgt": "1.0.0-alpha.2",
          "$vlt": "1.0.0-beta.1"
        }
      },
      {
        "v": "1.0.0-alpha.1"
      },
      false
    ],
    [
      "$vgt/$vlt prerelease - fail $vlt",
      {
        "v": {
          "$vgt": "1.0.0-alpha",
          "$vlt": "1.0.0-beta"
        }
      },
      {
        "v": "1.0.0-beta"
      },
      false
    ],
    [
      "$vgt/$vlt prerelease - pass",
      {
        "v": {
          "$vgt": "1.0.0-alpha",
          "$vlt": "1.0.0-beta"
        }
      },
      {
        "v": "1.0.0-alpha.10"
      },
      true
    ],
    [
      "$vgt/$vlt prerelease - fail uppercase",
      {
        "v": {
          "$vgt": "1.0.0-alpha",
          "$vlt": "1.0.0-beta"
        }
      },
      {
        "v": "1.0.0-ALPHA"
      },
      false
    ],
    [
      "$veq - pass",
      {
        "v": {
          "$veq": "1.2.3"
        }
      },
      {
        "v": "1.2.3"
      },
      true
    ],
    [
      "$veq - pass (with build)",
      {
        "v": {
          "$veq": "1.2.3"
        }
      },
      {
        "v": "1.2.3+build.abc.123"
      },
      true
    ],
    [
      "$vne - pass",
      {
        "v": {
          "$vne": "1.2.3"
        }
      },
      {
        "v": "2.2.3"
      },
      true
    ],
    [
      "$vne - pass (prerelease)",
      {
        "v": {
          "$vne": "1.2.3"
        }
      },
      {
        "v": "1.2.3-alpha"
      },
      true
    ],
    [
      "version 0.9.99 < 1.0.0",
      {
        "version": {
          "$vlt": "1.0.0"
        }
      },
      {
        "version": "0.9.99"
      },
      true
    ],
    [
      "version 0.9.0 < 0.10.0",
      {
        "version": {
          "$vlt": "0.10.0"
        }
      },
      {
        "version": "0.9.0"
      },
      true
    ],
    [
      "version 1.0.0-0.0 < 1.0.0-0.0.0",
      {
        "version": {
          "$vlt": "1.0.0-0.0.0"
        }
      },
      {
        "version": "1.0.0-0.0"
      },
      true
    ],
    [
      "version 1.0.0-9999 < 1.0.0--",
      {
        "version": {
          "$vlt": "1.0.0--"
        }
      },
      {
        "version": "1.0.0-9999"
      },
      true
    ],
    [
      "version 1.0.0-99 < 1.0.0-100",
      {
        "version": {
          "$vlt": "1.0.0-100"
        }
      },
      {
        "version": "1.0.0-99"
      },
      true
    ],
    [
      "version 1.0.0-alpha < 1.0.0-alpha.1",
      {
        "version": {
          "$vlt": "1.0.0-alpha.1"
        }
      },
      {
        "version": "1.0.0-alpha"
      },
      true
    ],
    [
      "version 1.0.0-alpha.1 < 1.0.0-alpha.beta",
      {
        "version": {
          "$vlt": "1.0.0-alpha.beta"
        }
      },
      {
        "version": "1.0.0-alpha.1"
      },
      true
    ],
    [
      "version 1.0.0-alpha.beta < 1.0.0-beta",
      {
        "version": {
          "$vlt": "1.0.0-beta"
        }
      },
      {
        "version": "1.0.0-alpha.beta"
      },
      true
    ],
    [
      "version 1.0.0-beta < 1.0.0-beta.2",
      {
        "version": {
          "$vlt": "1.0.0-beta.2"
        }
      },
      {
        "version": "1.0.0-beta"
      },
      true
    ],
    [
      "version 1.0.0-beta.2 < 1.0.0-beta.11",
      {
        "version": {
          "$vlt": "1.0.0-beta.11"
        }
      },
      {
        "version": "1.0.0-beta.2"
      },
      true
    ],
    [
      "version 1.0.0-beta.11 < 1.0.0-rc.1",
      {
        "version": {
          "$vlt": "1.0.0-rc.1"
        }
      },
      {
        "version": "1.0.0-beta.11"
      },
      true
    ],
    [
      "version 1.0.0-rc.1 < 1.0.0",
      {
        "version": {
          "$vlt": "1.0.0"
        }
      },
      {
        "version": "1.0.0-rc.1"
      },
      true
    ],
    [
      "version 1.0.0-0 < 1.0.0--1",
      {
        "version": {
          "$vlt": "1.0.0--1"
        }
      },
      {
        "version": "1.0.0-0"
      },
      true
    ],
    [
      "version 1.0.0-0 < 1.0.0-1",
      {
        "version": {
          "$vlt": "1.0.0-1"
        }
      },
      {
        "version": "1.0.0-0"
      },
      true
    ],
    [
      "version 1.0.0-1.0 < 1.0.0-1.-1",
      {
        "version": {
          "$vlt": "1.0.0-1.-1"
        }
      },
      {
        "version": "1.0.0-1.0"
      },
      true
    ],
    [
      "version 1.2.3-a.b.c < 1.2.3-a.b.c.d",
      {
        "version": {
          "$vlt": "1.2.3-a.b.c.d"
        }
      },
      {
        "version": "1.2.3-a.b.c"
      },
      true
    ],
    [
      "version 0.0.0 > 0.0.0-foo",
      {
        "version": {
          "$vgt": "0.0.0-foo"
        }
      },
      {
        "version": "0.0.0"
      },
      true
    ],
    [
      "version 0.0.1 > 0.0.0",
      {
        "version": {
          "$vgt": "0.0.0"
        }
      },
      {
        "version": "0.0.1"
      },
      true
    ],
    [
      "version 1.0.0 > 0.9.9",
      {
        "version": {
          "$vgt": "0.9.9"
        }
      },
      {
        "version": "1.0.0"
      },
      true
    ],
    [
      "version 0.10.0 > 0.9.0",
      {
        "version": {
          "$vgt": "0.9.0"
        }
      },
      {
        "version": "0.10.0"
      },
      true
    ],
    [
      "version 0.99.0 > 0.10.0",
      {
        "version": {
          "$vgt": "0.10.0"
        }
      },
      {
        "version": "0.99.0"
      },
      true
    ],
    [
      "version 2.0.0 > 1.2.3",
      {
        "version": {
          "$vgt": "1.2.3"
        }
      },
      {
        "version": "2.0.0"
      },
      true
    ],
    [
      "version v0.0.0 > 0.0.0-foo",
      {
        "version": {
          "$vgt": "0.0.0-foo"
        }
      },
      {
        "version": "v0.0.0"
      },
      true
    ],
    [
      "version v0.0.1 > 0.0.0",
      {
        "version": {
          "$vgt": "0.0.0"
        }
      },
      {
        "version": "v0.0.1"
      },
      true
    ],
    [
      "version v1.0.0 > 0.9.9",
      {
        "version": {
          "$vgt": "0.9.9"
        }
      },
      {
        "version": "v1.0.0"
      },
      true
    ],
    [
      "version v0.10.0 > 0.9.0",
      {
        "version": {
          "$vgt": "0.9.0"
        }
      },
      {
        "version": "v0.10.0"
      },
      true
    ],
    [
      "version v0.99.0 > 0.10.0",
      {
        "version": {
          "$vgt": "0.10.0"
        }
      },
      {
        "version": "v0.99.0"
      },
      true
    ],
    [
      "version v2.0.0 > 1.2.3",
      {
        "version": {
          "$vgt": "1.2.3"
        }
      },
      {
        "version": "v2.0.0"
      },
      true
    ],
    [
      "version 0.0.0 > v0.0.0-foo",
      {
        "version": {
          "$vgt": "v0.0.0-foo"
        }
      },
      {
        "version": "0.0.0"
      },
      true
    ],
    [
      "version 0.0.1 > v0.0.0",
      {
        "version": {
          "$vgt": "v0.0.0"
        }
      },
      {
        "version": "0.0.1"
      },
      true
    ],
    [
      "version 1.0.0 > v0.9.9",
      {
        "version": {
          "$vgt": "v0.9.9"
        }
      },
      {
        "version": "1.0.0"
      },
      true
    ],
    [
      "version 0.10.0 > v0.9.0",
      {
        "version": {
          "$vgt": "v0.9.0"
        }
      },
      {
        "version": "0.10.0"
      },
      true
    ],
    [
      "version 0.99.0 > v0.10.0",
      {
        "version": {
          "$vgt": "v0.10.0"
        }
      },
      {
        "version": "0.99.0"
      },
      true
    ],
    [
      "version 2.0.0 > v1.2.3",
      {
        "version": {
          "$vgt": "v1.2.3"
        }
      },
      {
        "version": "2.0.0"
      },
      true
    ],
    [
      "version 1.2.3 > 1.2.3-asdf",
      {
        "version": {
          "$vgt": "1.2.3-asdf"
        }
      },
      {
        "version": "1.2.3"
      },
      true
    ],
    [
      "version 1.2.3 > 1.2.3-4",
      {
        "version": {
          "$vgt": "1.2.3-4"
        }
      },
      {
        "version": "1.2.3"
      },
      true
    ],
    [
      "version 1.2.3 > 1.2.3-4-foo",
      {
        "version": {
          "$vgt": "1.2.3-4-foo"
        }
      },
      {
        "version": "1.2.3"
      },
      true
    ],
    [
      "version 1.2.3-5-foo > 1.2.3-5",
      {
        "version": {
          "$vgt": "1.2.3-5"
        }
      },
      {
        "version": "1.2.3-5-foo"
      },
      true
    ],
    [
      "version 1.2.3-5 > 1.2.3-4",
      {
        "version": {
          "$vgt": "1.2.3-4"
        }
      },
      {
        "version": "1.2.3-5"
      },
      true
    ],
    [
      "version 1.2.3-5-foo > 1.2.3-5-Foo",
      {
        "version": {
          "$vgt": "1.2.3-5-Foo"
        }
      },
      {
        "version": "1.2.3-5-foo"
      },
      true
    ],
    [
      "version 3.0.0 > 2.7.2+asdf",
      {
        "version": {
          "$vgt": "2.7.2+asdf"
        }
      },
      {
        "version": "3.0.0"
      },
      true
    ],
    [
      "version 1.2.3-a.10 > 1.2.3-a.5",
      {
        "version": {
          "$vgt": "1.2.3-a.5"
        }
      },
      {
        "version": "1.2.3-a.10"
      },
      true
    ],
    [
      "version 1.2.3-a.b > 1.2.3-a.5",
      {
        "version": {
          "$vgt": "1.2.3-a.5"
        }
      },
      {
        "version": "1.2.3-a.b"
      },
      true
    ],
    [
      "version 1.2.3-a.b > 1.2.3-a",
      {
        "version": {
          "$vgt": "1.2.3-a"
        }
      },
      {
        "version": "1.2.3-a.b"
      },
      true
    ],
    [
      "version 1.2.3-a.b.c.10.d.5 > 1.2.3-a.b.c.5.d.100",
      {
        "version": {
          "$vgt": "1.2.3-a.b.c.5.d.100"
        }
      },
      {
        "version": "1.2.3-a.b.c.10.d.5"
      },
      true
    ],
    [
      "version 1.2.3-r2 > 1.2.3-r100",
      {
        "version": {
          "$vgt": "1.2.3-r100"
        }
      },
      {
        "version": "1.2.3-r2"
      },
      true
    ],
    [
      "version 1.2.3-r100 > 1.2.3-R2",
      {
        "version": {
          "$vgt": "1.2.3-R2"
        }
      },
      {
        "version": "1.2.3-r100"
      },
      true
    ],
    [
      "version a.b.c.d.e.f > 1.2.3",
      {
        "version": {
          "$vgt": "1.2.3"
        }
      },
      {
        "version": "a.b.c.d.e.f"
      },
      true
    ],
    [
      "version 10.0.0 > 9.0.0",
      {
        "version": {
          "$vgt": "9.0.0"
        }
      },
      {
        "version": "10.0.0"
      },
      true
    ],
    [
      "version 10000.0.0 > 9999.0.0",
      {
        "version": {
          "$vgt": "9999.0.0"
        }
      },
      {
        "version": "10000.0.0"
      },
      true
    ],
    [
      "version 1.2.3 == 1.2.3",
      {
        "version": {
          "$veq": "1.2.3"
        }
      },
      {
        "version": "1.2.3"
      },
      true
    ],
    [
      "version 1.2.3 == v1.2.3",
      {
        "version": {
          "$veq": "v1.2.3"
        }
      },
      {
        "version": "1.2.3"
      },
      true
    ],
    [
      "version 1.2.3-0 == v1.2.3-0",
      {
        "version": {
          "$veq": "v1.2.3-0"
        }
      },
      {
        "version": "1.2.3-0"
      },
      true
    ],
    [
      "version 1.2.3-1 == 1.2.3-1",
      {
        "version": {
          "$veq": "1.2.3-1"
        }
      },
      {
        "version": "1.2.3-1"
      },
      true
    ],
    [
      "version 1.2.3-1 == v1.2.3-1",
      {
        "version": {
          "$veq": "v1.2.3-1"
        }
      },
      {
        "version": "1.2.3-1"
      },
      true
    ],
    [
      "version 1.2.3-beta == 1.2.3-beta",
      {
        "version": {
          "$veq": "1.2.3-beta"
        }
      },
      {
        "version": "1.2.3-beta"
      },
      true
    ],
    [
      "version 1.2.3-beta == v1.2.3-beta",
      {
        "version": {
          "$veq": "v1.2.3-beta"
        }
      },
      {
        "version": "1.2.3-beta"
      },
      true
    ],
    [
      "version 1.2.3-beta+build == 1.2.3-beta+otherbuild",
      {
        "version": {
          "$veq": "1.2.3-beta+otherbuild"
        }
      },
      {
        "version": "1.2.3-beta+build"
      },
      true
    ],
    [
      "version 1.2.3-beta+build == v1.2.3-beta+otherbuild",
      {
        "version": {
          "$veq": "v1.2.3-beta+otherbuild"
        }
      },
      {
        "version": "1.2.3-beta+build"
      },
      true
    ],
    [
      "version 1-2-3 == 1.2.3",
      {
        "version": {
          "$veq": "1.2.3"
        }
      },
      {
        "version": "1-2-3"
      },
      true
    ],
    [
      "version 1-2-3 == 1-2.3+build99",
      {
        "version": {
          "$veq": "1-2.3+build99"
        }
      },
      {
        "version": "1-2-3"
      },
      true
    ],
    [
      "version 1-2-3 == v1.2.3",
      {
        "version": {
          "$veq": "v1.2.3"
        }
      },
      {
        "version": "1-2-3"
      },
      true
    ],
    [
      "version 1.2.3.4 == 1.2.3-4",
      {
        "version": {
          "$veq": "1.2.3-4"
        }
      },
      {
        "version": "1.2.3.4"
      },
      true
    ]
  ]"##;

#[test]
fn elem_match_operators_need_an_array() {
    // An operator-object under $elemMatch tests each element of an array
    // attribute; a scalar attribute never matches.
    let condition = to_attrs(&serde_json::from_str(r#"{"tags": {"$elemMatch": {"$gt": 10}}}"#).unwrap());
    let scalar = to_attrs(&serde_json::from_str(r#"{"tags": 15}"#).unwrap());
    assert!(!condition.is_on(&scalar));
    let hit = to_attrs(&serde_json::from_str(r#"{"tags": [3, 12]}"#).unwrap());
    assert!(condition.is_on(&hit));
    let miss = to_attrs(&serde_json::from_str(r#"{"tags": [3, 7]}"#).unwrap());
    assert!(!condition.is_on(&miss));
}

#[test]
fn empty_nor_is_false() {
    // $nor is the negation of $or, and the empty $or is true.
    let nor = to_attrs(&serde_json::from_str(r#"{"$nor": []}"#).unwrap());
    let or = to_attrs(&serde_json::from_str(r#"{"$or": []}"#).unwrap());
    let attrs = to_attrs(&serde_json::from_str(r#"{"x": 1}"#).unwrap());
    assert!(or.is_on(&attrs));
    assert!(!nor.is_on(&attrs));
}

#[test]
fn not_negates_the_whole_conjunction() {
    // $not over a multi-key object negates the conjunction of its entries,
    // so one failing entry makes the negation true.
    let condition = to_attrs(&serde_json::from_str(r#"{"$not": {"a": 1, "b": 2}}"#).unwrap());
    let one_off = to_attrs(&serde_json::from_str(r#"{"a": 1, "b": 3}"#).unwrap());
    assert!(condition.is_on(&one_off));
    let both = to_attrs(&serde_json::from_str(r#"{"a": 1, "b": 2}"#).unwrap());
    assert!(!condition.is_on(&both));
}
